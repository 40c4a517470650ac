use brief::compiler::ffi::mappers::{MapperInfo, MapperRegistry, MapperType};
use brief::kernel::security::{verify_signature, ApacContext, FenceManager, FENCE_CONFLICT};

#[test]
fn mapper_registry_starts_empty_and_lists_in_order() {
    let mut r = MapperRegistry::new();
    assert!(r.all_mappers().is_empty());
    r.register(MapperInfo { name: "rust".to_string(), path: "a".to_string(), mapper_type: MapperType::Rust });
    r.register(MapperInfo { name: "c".to_string(), path: "b".to_string(), mapper_type: MapperType::Brief });
    r.register(MapperInfo { name: "rust".to_string(), path: "c".to_string(), mapper_type: MapperType::Brief });
    let all = r.all_mappers();
    assert_eq!(all.len(), 2);
    assert_eq!(all[0].name, "rust");
    assert_eq!(all[0].path, "c");
    assert_eq!(all[1].name, "c");
}

#[test]
fn fence_statuses_never_exceed_the_limit() {
    let mut m = FenceManager::new();
    for slot in 0..4u8 {
        assert_eq!(m.activate(slot, 1, 100), Ok(0));
    }
    assert_eq!(m.activate(9, 1, 100), Err(FENCE_CONFLICT));
    assert_eq!(m.get_status(9), None);
    assert_eq!(m.activate(2, 3, 7), Ok(0));
    assert_eq!(m.get_status(2), Some((true, 3, 7)));
    let with_status = (0..=255u8).filter(|s| m.get_status(*s).is_some()).count();
    assert_eq!(with_status, 4);
}

#[test]
fn signature_verdict_carries_its_error_code() {
    let v = verify_signature(&[1, 2, 3], &[4, 5]);
    assert!(v.valid);
    assert_eq!(v.error_code, 0);
    assert_eq!(v.key_id, 0x12345678);
}

#[test]
fn apac_verifies_last_authentication() {
    let mut c = ApacContext::new();
    assert!(!c.verify(0, 0));
    let key = [1u8, 2, 3];
    c.authenticate(0x1000, 64, &key).unwrap();
    c.authenticate(0x2000, 32, &key).unwrap();
    assert!(c.verify(0x2000, 32));
    assert!(!c.verify(0x1000, 64));
    assert!(!c.verify(0x2000, 64));
    assert!(c.verify(0x2000, 32));
}
