use brief::bvc::parser::parse_bvc;
use brief::bvc::types::{EbvData, EbvHeader, EbvTetherDef, PartitionDef};
use brief::bvc::writ::{PartitionSpec, SecuritySpec, TargetSpec, WritBuilder, WritMetadata};
use serde_json::Value;

/// The JSON text of a Writ's metadata, as serde writes it (fields that are
/// absent or empty are left out; these tests have no tethers or
/// interconnects).
fn metadata_json(m: &WritMetadata) -> Vec<u8> {
    let mut o = serde_json::Map::new();
    o.insert("name".to_string(), Value::String(m.name.clone()));
    o.insert("version".to_string(), Value::String(m.version.clone()));
    if let Some(t) = &m.target {
        let mut x = serde_json::Map::new();
        x.insert("board".to_string(), Value::String(t.board.clone()));
        x.insert("soc".to_string(), Value::String(t.soc.clone()));
        o.insert("target".to_string(), Value::Object(x));
    }
    let parts: Vec<Value> = m
        .partitions
        .iter()
        .map(|p| {
            let mut x = serde_json::Map::new();
            x.insert("slot".to_string(), Value::String(p.slot.clone()));
            x.insert("lut_count".to_string(), Value::from(p.lut_count));
            x.insert("bram_mb".to_string(), Value::from(p.bram_tenths_mb as f64 / 10.0));
            Value::Object(x)
        })
        .collect();
    o.insert("partitions".to_string(), Value::Array(parts));
    let mut s = serde_json::Map::new();
    s.insert("verified".to_string(), Value::Bool(m.security.verified));
    s.insert("signature".to_string(), Value::String(m.security.signature.clone()));
    if let Some(c) = &m.security.leakage_contract {
        s.insert("leakage_contract".to_string(), Value::String(c.clone()));
    }
    o.insert("security".to_string(), Value::Object(s));
    serde_json::to_vec(&Value::Object(o)).unwrap()
}

fn make_test_ebv() -> EbvData {
    let partitions = vec![
        ("Tile_0".to_string(), PartitionDef { lut_count: Some(40000), name: Some("kernel_ops".to_string()) }),
        ("Tile_1".to_string(), PartitionDef { lut_count: Some(80000), name: Some("app_slot_1".to_string()) }),
        ("RP_0".to_string(), PartitionDef { lut_count: Some(40000), name: Some("kernel_ops".to_string()) }),
        ("RP_1".to_string(), PartitionDef { lut_count: Some(80000), name: Some("app_slot_1".to_string()) }),
    ];
    let tethers = vec![
        ("Port_0".to_string(), EbvTetherDef { tether_type: Some("axi".to_string()), query: None }),
        ("aurora_0".to_string(), EbvTetherDef { tether_type: Some("aurora".to_string()), query: None }),
    ];
    EbvData {
        ebv: EbvHeader {
            board: Some("KV260".to_string()),
            soc: Some("XCZU3CG".to_string()),
            partitions: Some(partitions),
            tethers: Some(tethers),
            moats: None,
        },
    }
}

fn empty_metadata(name: &str, verified: bool, signature: &str) -> WritMetadata {
    WritMetadata {
        name: name.to_string(),
        version: "0.1.0".to_string(),
        target: None,
        partitions: vec![],
        security: SecuritySpec { verified, signature: signature.to_string(), leakage_contract: None },
        tethers: vec![],
        interconnects: vec![],
    }
}

#[test]
fn test_parse_minimal() {
    let source = r#"
using Imp_Core;
control Fabric {
    target Tile_0;
    partition Imp_Core across Tile_0;
}
"#;
    let program = parse_bvc(source).unwrap();
    assert_eq!(program.using_decls.len(), 1);
    assert_eq!(program.control_blocks.len(), 1);
}

#[test]
fn test_parse_gpu_mount() {
    let source = r#"
using Rendered_GPU;
control Display {
    target Tile_0;
    partition Rendered_GPU across Tile_0 as RP_1;
    fence RP_1 enable;
}
"#;
    let program = parse_bvc(source).unwrap();
    assert_eq!(program.using_decls[0], "Rendered_GPU");
    assert_eq!(program.control_blocks[0].name, "Display");
}

#[test]
fn lib_test_writ_magic_bytes() {
    let builder = WritBuilder::new();
    let metadata = empty_metadata("test", true, "test");
    let bytes = builder.to_writ_bytes(&metadata_json(&metadata));
    assert_eq!(&bytes[0..4], b"WRIT");
}

#[test]
fn test_writ_builder_basic() {
    let builder = WritBuilder::new();
    let mut metadata = empty_metadata("TestModule", true, "sig");
    metadata.target = Some(TargetSpec { board: "KV260".to_string(), soc: "XCZU3CG".to_string() });
    let bytes = builder.to_writ_bytes(&metadata_json(&metadata));
    assert_eq!(&bytes[0..4], b"WRIT");
    assert!(bytes.len() > 22);
}

#[test]
fn writ_test_writ_magic_bytes() {
    let builder = WritBuilder::new();
    let metadata = empty_metadata("Test", false, "");
    let bytes = builder.to_writ_bytes(&metadata_json(&metadata));
    assert_eq!(&bytes[0..4], b"WRIT");
}

#[test]
fn test_writ_version_bytes() {
    let builder = WritBuilder::new();
    let metadata = empty_metadata("Test", false, "");
    let bytes = builder.to_writ_bytes(&metadata_json(&metadata));
    let version = u16::from_le_bytes([bytes[4], bytes[5]]);
    assert_eq!(version, 1);
}

#[test]
fn test_writ_json_metadata() {
    let builder = WritBuilder::new();
    let mut metadata = empty_metadata("TestModule", true, "abc123");
    metadata.target = Some(TargetSpec { board: "KV260".to_string(), soc: "XCZU3CG".to_string() });
    metadata.partitions = vec![PartitionSpec { slot: "RP_0".to_string(), lut_count: 40000, bram_tenths_mb: 24, relocation: None }];
    metadata.security.leakage_contract = Some("TestLC".to_string());
    let bytes = builder.to_writ_bytes(&metadata_json(&metadata));
    assert_eq!(&bytes[0..4], b"WRIT");
    let json_len = u32::from_le_bytes([bytes[6], bytes[7], bytes[8], bytes[9]]) as usize;
    assert!(json_len > 0);
    assert!(json_len < 10000);
    let json_bytes = &bytes[10..10 + json_len];
    let json_str = String::from_utf8(json_bytes.to_vec()).unwrap();
    assert!(json_str.contains("TestModule"));
    assert!(json_str.contains("KV260"));
}

#[test]
fn writ_frame_ends_with_sixteen_zero_bytes() {
    let builder = WritBuilder::new();
    let bytes = builder.to_writ_bytes(b"{}");
    assert_eq!(bytes.len(), 10 + 2 + 16);
    assert_eq!(&bytes[6..10], &[2, 0, 0, 0]);
    assert!(bytes[12..].iter().all(|b| *b == 0));
}

#[test]
fn test_build_from_program_single_partition() {
    let source = r#"
using Imp_Core;
control Fabric {
    partition Imp_Core across Tile_0 as RP_0;
}
"#;
    let program = parse_bvc(source).unwrap();
    let ebv = make_test_ebv();
    let mut builder = WritBuilder::new();
    let metadata = builder.build_from_program(&program, &ebv).unwrap();
    assert_eq!(metadata.name, "Fabric");
    assert_eq!(metadata.partitions.len(), 1);
    assert_eq!(metadata.partitions[0].slot, "RP_0");
    assert_eq!(metadata.partitions[0].lut_count, 40000);
}

#[test]
fn test_build_from_program_multiple_partitions() {
    let source = r#"
using Imp_Core;
using Rendered_GPU;
control Full_System {
    partition Imp_Core across Tile_0 as RP_0;
    partition Rendered_GPU across Tile_1 as RP_1;
}
"#;
    let program = parse_bvc(source).unwrap();
    let ebv = make_test_ebv();
    let mut builder = WritBuilder::new();
    let metadata = builder.build_from_program(&program, &ebv).unwrap();
    assert_eq!(metadata.partitions.len(), 2);
    assert_eq!(metadata.partitions[0].slot, "RP_0");
    assert_eq!(metadata.partitions[1].slot, "RP_1");
}

#[test]
fn test_build_from_program_with_routes() {
    let source = r#"
using Imp_Core;
control Fabric {
    route pixel_link from Tile_0 to Tile_0 over Port_0;
}
"#;
    let program = parse_bvc(source).unwrap();
    let ebv = make_test_ebv();
    let mut builder = WritBuilder::new();
    let metadata = builder.build_from_program(&program, &ebv).unwrap();
    assert_eq!(metadata.interconnects.len(), 1);
    assert_eq!(metadata.interconnects[0].name, "pixel_link");
    assert_eq!(metadata.interconnects[0].interconnect_type, "AXI4Stream");
}

#[test]
fn test_build_from_program_auto_slot_naming() {
    let source = r#"
using Imp_Core;
control Fabric {
    partition Imp_Core across Tile_0;
}
"#;
    let program = parse_bvc(source).unwrap();
    let ebv = make_test_ebv();
    let mut builder = WritBuilder::new();
    let metadata = builder.build_from_program(&program, &ebv).unwrap();
    assert_eq!(metadata.partitions.len(), 1);
    assert_eq!(metadata.partitions[0].slot, "RP_0");
}

#[test]
fn test_build_from_program_target_info() {
    let source = r#"
using Imp_Core;
control Fabric {
    partition Imp_Core across Tile_0 as RP_0;
}
"#;
    let program = parse_bvc(source).unwrap();
    let ebv = make_test_ebv();
    let mut builder = WritBuilder::new();
    let metadata = builder.build_from_program(&program, &ebv).unwrap();
    assert!(metadata.target.is_some());
    assert_eq!(metadata.target.as_ref().unwrap().board, "KV260");
    assert_eq!(metadata.target.as_ref().unwrap().soc, "XCZU3CG");
}

#[test]
fn test_build_from_program_security_defaults() {
    let source = r#"
using Imp_Core;
control Fabric {
    partition Imp_Core across Tile_0 as RP_0;
}
"#;
    let program = parse_bvc(source).unwrap();
    let ebv = make_test_ebv();
    let mut builder = WritBuilder::new();
    let metadata = builder.build_from_program(&program, &ebv).unwrap();
    assert!(!metadata.security.verified);
    assert!(metadata.security.signature.is_empty());
}
