use brief::compiler::ffi::native_mapper::NativeMapper;
use brief::compiler::ffi::types::{Endian, FfiValue, FieldDescriptor, MemoryLayout};

fn field(name: &str, offset: usize, size: usize, endian: Option<Endian>) -> FieldDescriptor {
    FieldDescriptor { name: name.to_string(), offset, size_bytes: size, element_size: None, count: None, endian }
}

fn layout(fields: Vec<FieldDescriptor>, endian: Endian) -> MemoryLayout {
    MemoryLayout { size_bytes: 16, alignment: 8, fields, endian }
}

#[test]
fn native_drop_little_and_big_endian_ints() {
    let m = NativeMapper;
    let mut buf = [0u8; 12];
    let l = layout(vec![field("a", 0, 4, None), field("b", 4, 8, Some(Endian::Big))], Endian::Little);
    let r = m.drop_at(&mut buf, &l, &[FfiValue::Int(0x0102_0304), FfiValue::Int(5)], 0x1000, true);
    assert_eq!(r, Ok(12));
    assert_eq!(buf, [4, 3, 2, 1, 0, 0, 0, 0, 0, 0, 0, 5]);
}

#[test]
fn native_drop_native_order_follows_machine() {
    let m = NativeMapper;
    let l = layout(vec![field("a", 0, 2, None)], Endian::Native);
    let mut little = [0u8; 2];
    assert_eq!(m.drop_at(&mut little, &l, &[FfiValue::Int(0x0102)], 0, true), Ok(2));
    assert_eq!(little, [2, 1]);
    let mut big = [0u8; 2];
    assert_eq!(m.drop_at(&mut big, &l, &[FfiValue::Int(0x0102)], 0, false), Ok(2));
    // the first two bytes of the big-endian eight-byte form
    assert_eq!(big, [0, 0]);
}

#[test]
fn native_drop_bool_string_data_void() {
    let m = NativeMapper;
    let mut buf = [9u8; 10];
    let l = layout(
        vec![field("f", 0, 1, None), field("s", 1, 3, None), field("d", 4, 4, None), field("v", 8, 2, None)],
        Endian::Little,
    );
    let data = [
        FfiValue::Bool(true),
        FfiValue::String("hello".to_string()),
        FfiValue::Data(vec![7, 8]),
        FfiValue::Void,
    ];
    assert_eq!(m.drop_at(&mut buf, &l, &data, 0, true), Ok(10));
    assert_eq!(buf, [1, b'h', b'e', b'l', 7, 8, 9, 9, 9, 9]);
}

#[test]
fn native_drop_stops_at_shorter_of_fields_and_data() {
    let m = NativeMapper;
    let mut buf = [0u8; 8];
    let l = layout(vec![field("a", 0, 4, None), field("b", 4, 4, None)], Endian::Little);
    assert_eq!(m.drop_at(&mut buf, &l, &[FfiValue::Int(1)], 0, true), Ok(4));
    assert_eq!(buf, [1, 0, 0, 0, 0, 0, 0, 0]);
}

#[test]
fn native_drop_overflow_error() {
    let m = NativeMapper;
    let mut buf = [0u8; 4];
    let l = layout(vec![field("wide", 2, 4, None)], Endian::Little);
    let r = m.drop_at(&mut buf, &l, &[FfiValue::Int(1)], 0, true);
    assert_eq!(r, Err("Buffer overflow at field wide: offset 2 + size 4 > buffer len 4".to_string()));
    assert_eq!(buf, [0, 0, 0, 0]);
}

#[test]
fn native_drop_address_outside_buffer() {
    let m = NativeMapper;
    let mut buf = [0u8; 8];
    let l = layout(vec![field("address", 0, 8, None)], Endian::Little);
    let r = m.drop_at(&mut buf, &l, &[FfiValue::Int(0x10)], 0x100, true);
    assert_eq!(r, Err("Address 0x10 outside buffer range [0x100, 0x108)".to_string()));
    let ok = m.drop_at(&mut buf, &l, &[FfiValue::Int(0x100)], 0x100, true);
    assert_eq!(ok, Ok(8));
    assert_eq!(buf, [0, 1, 0, 0, 0, 0, 0, 0]);
}

#[test]
fn native_drop_unsupported_value() {
    let m = NativeMapper;
    let mut buf = [0u8; 4];
    let l = layout(vec![field("a", 0, 4, None)], Endian::Little);
    let r = m.drop_at(&mut buf, &l, &[FfiValue::List(vec![])], 0, true);
    assert_eq!(r, Err("Unsupported FfiValue for NativeMapper::drop: List([])".to_string()));
}

#[test]
fn native_drop_in_machine_order() {
    let m = NativeMapper;
    let mut buf = [0u8; 4];
    let l = layout(vec![field("a", 0, 4, Some(Endian::Little))], Endian::Native);
    assert_eq!(m.drop(&mut buf, &l, &[FfiValue::Int(-1)]), Ok(4));
    assert_eq!(buf, [255, 255, 255, 255]);
}

#[test]
fn native_fetch_sizes() {
    let m = NativeMapper;
    let buf = [0xfe, 0xff, 0xff, 0xff, 1, 0, 0, 0, 0, 0, 0, 0x80, 3, 4, 5];
    let one = layout(vec![field("x", 0, 4, None)], Endian::Little);
    assert!(matches!(m.fetch_in(&buf, &one, true), Ok(FfiValue::Int(-2))));
    let big = layout(vec![field("x", 4, 8, Some(Endian::Big))], Endian::Little);
    assert!(matches!(m.fetch_in(&buf, &big, true), Ok(FfiValue::Int(0x0100_0000_0000_0080))));
    let low = layout(vec![field("x", 4, 8, None)], Endian::Little);
    assert!(matches!(m.fetch_in(&buf, &low, true), Ok(FfiValue::Int(v)) if v == i64::MIN + 1));
    let flag = layout(vec![field("x", 4, 1, None)], Endian::Little);
    assert!(matches!(m.fetch_in(&buf, &flag, true), Ok(FfiValue::Bool(true))));
    let raw = layout(vec![field("x", 12, 3, None)], Endian::Little);
    assert!(matches!(m.fetch_in(&buf, &raw, true), Ok(FfiValue::Data(d)) if d == vec![3, 4, 5]));
}

#[test]
fn native_fetch_empty_is_void_and_several_make_a_struct() {
    let m = NativeMapper;
    let buf = [1u8, 2, 0, 0, 0];
    let none = layout(vec![], Endian::Little);
    assert!(matches!(m.fetch(&buf, &none), Ok(FfiValue::Void)));
    let two = layout(vec![field("ok", 0, 1, None), field("n", 1, 4, None)], Endian::Little);
    match m.fetch_in(&buf, &two, true) {
        Ok(FfiValue::Struct(name, fields)) => {
            assert_eq!(name, "Result");
            assert_eq!(fields.len(), 2);
            assert_eq!(fields[0].0, "ok");
            assert!(matches!(fields[0].1, FfiValue::Bool(true)));
            assert_eq!(fields[1].0, "n");
            assert!(matches!(fields[1].1, FfiValue::Int(2)));
        }
        _ => panic!("expected a struct"),
    }
}

#[test]
fn native_fetch_underflow() {
    let m = NativeMapper;
    let buf = [0u8; 3];
    let l = layout(vec![field("wide", 0, 4, None)], Endian::Little);
    assert!(matches!(m.fetch_in(&buf, &l, true), Err(e) if e == "Buffer underflow reading field wide"));
}

#[test]
fn native_drop_then_fetch_round_trip() {
    let m = NativeMapper;
    let mut buf = [0u8; 8];
    let l = layout(vec![field("x", 0, 4, None), field("y", 4, 4, Some(Endian::Big))], Endian::Little);
    assert_eq!(m.drop_at(&mut buf, &l, &[FfiValue::Int(-7), FfiValue::Int(300)], 0, true), Ok(8));
    match m.fetch_in(&buf, &l, true) {
        Ok(FfiValue::Struct(_, fields)) => {
            assert!(matches!(fields[0].1, FfiValue::Int(-7)));
            // a four-byte big-endian field keeps the first four bytes of the
            // eight-byte form, which are zero here
            assert!(matches!(fields[1].1, FfiValue::Int(0)));
        }
        _ => panic!("expected a struct"),
    }
}

#[test]
fn native_validate_accepts_everything() {
    assert!(NativeMapper.validate(&[1, 2, 3], "anything"));
}

#[test]
fn native_eight_byte_fields_round_trip_in_both_orders() {
    let m = NativeMapper;
    let mut buf = [0u8; 16];
    let l = layout(vec![field("lo", 0, 8, Some(Endian::Little)), field("hi", 8, 8, Some(Endian::Big))], Endian::Native);
    assert_eq!(m.drop_at(&mut buf, &l, &[FfiValue::Int(-123456789), FfiValue::Int(i64::MIN)], 0, false), Ok(16));
    match m.fetch_in(&buf, &l, false) {
        Ok(FfiValue::Struct(_, fields)) => {
            assert!(matches!(fields[0].1, FfiValue::Int(-123456789)));
            assert!(matches!(fields[1].1, FfiValue::Int(i64::MIN)));
        }
        _ => panic!("expected a struct"),
    }
}
