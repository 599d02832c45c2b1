use psi_fracpack::bytes::{push_le, read_le, write_le};
use psi_fracpack::schema::{Field, Type};
use psi_fracpack::unpack::Error;
use psi_fracpack::value::Value;

fn named(name: &str, ty: Type) -> Field {
    Field { name: name.to_string(), ty }
}

fn embedded_type() -> Type {
    Type::Struct(vec![named("x", Type::U64), named("y", Type::F64)])
}

fn outer_type() -> Type {
    Type::Struct(vec![
        named("a", Type::U64),
        named("b", embedded_type()),
        named("c", Type::F64),
    ])
}

fn embedded_value() -> Value {
    Value::Struct(vec![Value::U64(2), Value::F64(3.0f64.to_bits())])
}

fn outer_value() -> Value {
    Value::Struct(vec![Value::U64(1), embedded_value(), Value::F64(4.0f64.to_bits())])
}

fn flat_value() -> Value {
    Value::Struct(vec![Value::U64(7), Value::F64(2.5f64.to_bits())])
}

fn flat_bytes() -> Vec<u8> {
    let mut expected: Vec<u8> = vec![0x12, 0x00];
    expected.extend_from_slice(&7u64.to_le_bytes());
    expected.extend_from_slice(&2.5f64.to_le_bytes());
    expected
}

fn outer_bytes() -> Vec<u8> {
    let mut expected: Vec<u8> = vec![22, 0];
    expected.extend_from_slice(&1u64.to_le_bytes());
    expected.extend_from_slice(&12u32.to_le_bytes());
    expected.extend_from_slice(&4.0f64.to_le_bytes());
    expected.extend_from_slice(&[18, 0]);
    expected.extend_from_slice(&2u64.to_le_bytes());
    expected.extend_from_slice(&3.0f64.to_le_bytes());
    expected
}

// A record that holds a record that holds a record, with scalars around them.
fn deep_type() -> Type {
    Type::Struct(vec![
        named("first", Type::U8),
        named("nested", outer_type()),
        named("empty", Type::Struct(vec![])),
        named("last", Type::U16),
        named("other", embedded_type()),
        named("half", Type::F32),
        named("word", Type::U32),
    ])
}

fn deep_value() -> Value {
    Value::Struct(vec![
        Value::U8(0xAB),
        outer_value(),
        Value::Struct(vec![]),
        Value::U16(0xCDEF),
        embedded_value(),
        Value::F32(1.5f32.to_bits()),
        Value::U32(0xDEADBEEF),
    ])
}

fn signed_type() -> Type {
    Type::Struct(vec![
        named("tiny", Type::I8),
        named("small", Type::I16),
        named("inner", Type::Struct(vec![named("wide", Type::I64)])),
        named("medium", Type::I32),
    ])
}

fn signed_value() -> Value {
    Value::Struct(vec![
        Value::I8(-2),
        Value::I16(-3),
        Value::Struct(vec![Value::I64(i64::MIN)]),
        Value::I32(-4),
    ])
}

fn same(left: &Value, right: &Value) -> bool {
    match (left, right) {
        (Value::U8(a), Value::U8(b)) => a == b,
        (Value::U16(a), Value::U16(b)) => a == b,
        (Value::U32(a), Value::U32(b)) => a == b,
        (Value::U64(a), Value::U64(b)) => a == b,
        (Value::I8(a), Value::I8(b)) => a == b,
        (Value::I16(a), Value::I16(b)) => a == b,
        (Value::I32(a), Value::I32(b)) => a == b,
        (Value::I64(a), Value::I64(b)) => a == b,
        (Value::F32(a), Value::F32(b)) => a == b,
        (Value::F64(a), Value::F64(b)) => a == b,
        (Value::Struct(a), Value::Struct(b)) => {
            a.len() == b.len() && a.iter().zip(b.iter()).all(|(x, y)| same(x, y))
        }
        _ => false,
    }
}

#[test]
fn two_scalars_pack_to_their_eighteen_bytes() {
    let bytes = flat_value().packed();
    assert_eq!(bytes.len(), 18);
    assert_eq!(&bytes[..2], &[0x12, 0x00]);
    assert_eq!(bytes, flat_bytes());
}

#[test]
fn embedded_record_is_appended_after_the_fixed_region() {
    let bytes = outer_value().packed();
    assert_eq!(bytes.len(), 40);
    assert_eq!(&bytes[..2], &[22, 0]);
    // The slot of `b` stands at byte 10 and leads to byte 22.
    let offset = u32::from_le_bytes([bytes[10], bytes[11], bytes[12], bytes[13]]);
    assert_eq!(10 + offset, 22);
    assert_eq!(&bytes[22..24], &[18, 0]);
    assert_eq!(&bytes[24..32], &2u64.to_le_bytes());
    assert_eq!(&bytes[32..40], &3.0f64.to_le_bytes());
    assert_eq!(bytes, outer_bytes());
}

#[test]
fn empty_record_is_its_prefix() {
    assert_eq!(Value::Struct(vec![]).packed(), vec![2, 0]);
}

#[test]
fn scalar_packs_to_its_bytes() {
    assert_eq!(Value::U32(0x01020304).packed(), vec![4, 3, 2, 1]);
    assert_eq!(Value::U8(9).packed(), vec![9]);
    assert_eq!(Value::F32(1.0f32.to_bits()).packed(), 1.0f32.to_le_bytes().to_vec());
}

#[test]
fn signed_integers_pack_in_twos_complement() {
    assert_eq!(Value::I8(-1).packed(), vec![0xFF]);
    assert_eq!(Value::I16(-2).packed(), vec![0xFE, 0xFF]);
    assert_eq!(Value::I32(i32::MIN).packed(), vec![0, 0, 0, 0x80]);
    assert_eq!(Value::I64(-1).packed(), vec![0xFF; 8]);
    assert_eq!(Value::I64(5).packed(), 5i64.to_le_bytes().to_vec());
    let mut expected: Vec<u8> = vec![13, 0, 0xFE];
    expected.extend_from_slice(&(-3i16).to_le_bytes());
    expected.extend_from_slice(&8u32.to_le_bytes());
    expected.extend_from_slice(&(-4i32).to_le_bytes());
    expected.extend_from_slice(&[10, 0]);
    expected.extend_from_slice(&i64::MIN.to_le_bytes());
    assert_eq!(signed_value().packed(), expected);
    assert_eq!(Value::I8(-1).raw(), 0xFF);
    assert_eq!(Value::I64(-1).raw(), u64::MAX);
    assert_eq!(Value::I16(-1).fixed_size(), 2);
    assert_eq!(Type::I32.fixed_size(), 4);
    assert!(!Value::I8(1).has_type(&Type::U8));
}

#[test]
fn scalar_adds_nothing_to_a_heap() {
    let mut dest = vec![1u8, 2, 3];
    Value::U64(5).pack_variable(&mut dest);
    assert_eq!(dest, vec![1, 2, 3]);
}

#[test]
fn pack_appends_to_what_is_there() {
    let mut dest = vec![0xEEu8, 0xFF];
    outer_value().pack(&mut dest);
    let mut expected = vec![0xEEu8, 0xFF];
    expected.extend_from_slice(&outer_bytes());
    assert_eq!(dest, expected);
}

#[test]
fn fixed_sizes() {
    assert_eq!(Value::U8(0).fixed_size(), 1);
    assert_eq!(Value::U16(0).fixed_size(), 2);
    assert_eq!(Value::U32(0).fixed_size(), 4);
    assert_eq!(Value::U64(0).fixed_size(), 8);
    assert_eq!(Value::F32(0).fixed_size(), 4);
    assert_eq!(Value::F64(0).fixed_size(), 8);
    assert_eq!(outer_value().fixed_size(), 4);
    assert_eq!(Type::U8.fixed_size(), 1);
    assert_eq!(Type::U16.fixed_size(), 2);
    assert_eq!(Type::U32.fixed_size(), 4);
    assert_eq!(Type::U64.fixed_size(), 8);
    assert_eq!(Type::F32.fixed_size(), 4);
    assert_eq!(Type::F64.fixed_size(), 8);
    assert_eq!(outer_type().fixed_size(), 4);
}

#[test]
fn pack_fixed_writes_scalar_or_placeholder() {
    let mut dest = vec![7u8];
    Value::U16(0x0102).pack_fixed(&mut dest);
    assert_eq!(dest, vec![7, 2, 1]);
    outer_value().pack_fixed(&mut dest);
    assert_eq!(dest, vec![7, 2, 1, 0, 0, 0, 0]);
}

#[test]
fn repack_fixed_patches_only_the_slot() {
    let mut dest = vec![9u8, 9, 0, 0, 0, 0, 9, 9, 9];
    outer_value().repack_fixed(2, 9, &mut dest);
    assert_eq!(dest, vec![9, 9, 7, 0, 0, 0, 9, 9, 9]);
    Value::U64(1).repack_fixed(2, 9, &mut dest);
    assert_eq!(dest, vec![9, 9, 7, 0, 0, 0, 9, 9, 9]);
}

#[test]
fn round_trip_of_nested_records() {
    for (ty, value) in [
        (embedded_type(), embedded_value()),
        (outer_type(), outer_value()),
        (deep_type(), deep_value()),
        (Type::Struct(vec![]), Value::Struct(vec![])),
        (Type::U64, Value::U64(u64::MAX)),
        (Type::U8, Value::U8(0)),
        (Type::F64, Value::F64(f64::NAN.to_bits())),
        (Type::I8, Value::I8(-1)),
        (Type::I8, Value::I8(i8::MIN)),
        (Type::I16, Value::I16(-12345)),
        (Type::I32, Value::I32(i32::MIN)),
        (Type::I64, Value::I64(-1)),
        (Type::I64, Value::I64(i64::MAX)),
        (signed_type(), signed_value()),
    ] {
        assert!(value.has_type(&ty));
        let bytes = value.packed();
        match ty.unpack(&bytes) {
            Ok(back) => assert!(same(&back, &value)),
            Err(_) => panic!("a packed value was rejected"),
        }
    }
}

#[test]
fn two_scalars_unpack_to_their_values() {
    match embedded_type().unpack(&flat_bytes()) {
        Ok(Value::Struct(fields)) => {
            assert_eq!(fields.len(), 2);
            assert!(matches!(fields[0], Value::U64(7)));
            match fields[1] {
                Value::F64(bits) => assert_eq!(f64::from_bits(bits), 2.5),
                _ => panic!("the second field is not a float"),
            }
        }
        _ => panic!("a packed value was rejected"),
    }
}

#[test]
fn packing_twice_gives_the_same_bytes() {
    assert_eq!(deep_value().packed(), deep_value().packed());
    let value = outer_value();
    assert_eq!(value.packed(), value.packed());
}

// Walks a packed record of the given type and checks, for each record in it,
// its prefix and its offset slots. Returns nothing; panics on a violation.
fn check_record(ty: &Type, bytes: &[u8], start: usize) {
    let fields = match ty {
        Type::Struct(fields) => fields,
        _ => panic!("not a record type"),
    };
    let fixed: u32 = fields.iter().map(|f| f.ty.fixed_size()).sum();
    let prefix = u16::from_le_bytes([bytes[start], bytes[start + 1]]);
    assert_eq!(prefix as u32, 2 + fixed);
    let mut slot = start + 2;
    for f in fields {
        if let Type::Struct(_) = f.ty {
            assert!(slot + 4 <= bytes.len());
            let offset =
                u32::from_le_bytes([bytes[slot], bytes[slot + 1], bytes[slot + 2], bytes[slot + 3]])
                    as usize;
            assert!(offset >= 4);
            assert!(offset <= bytes.len());
            assert!(slot + offset <= bytes.len());
            check_record(&f.ty, bytes, slot + offset);
        }
        slot += f.ty.fixed_size() as usize;
    }
}

#[test]
fn offsets_and_prefixes_of_packed_records_are_valid() {
    check_record(&outer_type(), &outer_value().packed(), 0);
    check_record(&deep_type(), &deep_value().packed(), 0);
    check_record(&Type::Struct(vec![]), &Value::Struct(vec![]).packed(), 0);
}

#[test]
fn every_truncation_is_rejected_as_truncated() {
    for (ty, value) in [
        (embedded_type(), embedded_value()),
        (outer_type(), outer_value()),
        (deep_type(), deep_value()),
        (Type::Struct(vec![]), Value::Struct(vec![])),
    ] {
        let bytes = value.packed();
        for n in 0..bytes.len() {
            assert!(matches!(ty.unpack(&bytes[..n]), Err(Error::TruncatedInput)));
        }
        assert!(ty.unpack(&bytes).is_ok());
    }
}

// The places of all offset slots in a packed record of the given type.
fn slots(ty: &Type, bytes: &[u8], start: usize, found: &mut Vec<usize>) {
    if let Type::Struct(fields) = ty {
        let mut slot = start + 2;
        for f in fields {
            if let Type::Struct(_) = f.ty {
                found.push(slot);
                let offset = u32::from_le_bytes([
                    bytes[slot],
                    bytes[slot + 1],
                    bytes[slot + 2],
                    bytes[slot + 3],
                ]) as usize;
                slots(&f.ty, bytes, slot + offset, found);
            }
            slot += f.ty.fixed_size() as usize;
        }
    }
}

#[test]
fn small_offsets_are_rejected_as_invalid() {
    let ty = deep_type();
    let bytes = deep_value().packed();
    let mut found = Vec::new();
    slots(&ty, &bytes, 0, &mut found);
    assert_eq!(found.len(), 4);
    for slot in found {
        for small in 0u32..4 {
            let mut damaged = bytes.clone();
            damaged[slot..slot + 4].copy_from_slice(&small.to_le_bytes());
            assert!(matches!(ty.unpack(&damaged), Err(Error::InvalidOffset)));
        }
    }
}

#[test]
fn offset_past_the_end_is_truncated() {
    let mut bytes = outer_value().packed();
    bytes[10..14].copy_from_slice(&31u32.to_le_bytes());
    assert!(matches!(outer_type().unpack(&bytes), Err(Error::TruncatedInput)));
    // An offset that leads exactly to the end leaves no room for a prefix.
    bytes[10..14].copy_from_slice(&30u32.to_le_bytes());
    assert!(matches!(outer_type().unpack(&bytes), Err(Error::TruncatedInput)));
}

#[test]
fn small_prefix_is_a_schema_mismatch() {
    let mut bytes = flat_bytes();
    bytes[0] = 17;
    assert!(matches!(embedded_type().unpack(&bytes), Err(Error::SchemaMismatch)));
    // A prefix that states more than the type needs is accepted.
    bytes[0] = 19;
    assert!(embedded_type().unpack(&bytes).is_ok());
    // The nested record's prefix is checked too.
    let mut nested = outer_bytes();
    nested[22] = 2;
    assert!(matches!(outer_type().unpack(&nested), Err(Error::SchemaMismatch)));
}

#[test]
fn unpack_inplace_reads_at_a_slot() {
    let bytes = outer_bytes();
    match Type::U64.unpack_inplace(&bytes, 2) {
        Ok(Value::U64(1)) => {}
        _ => panic!("the integer at byte 2 was not read"),
    }
    match embedded_type().unpack_inplace(&bytes, 10) {
        Ok(back) => assert!(same(&back, &embedded_value())),
        Err(_) => panic!("the record behind the slot at byte 10 was not read"),
    }
    assert!(matches!(Type::U64.unpack_inplace(&bytes, 33), Err(Error::TruncatedInput)));
    assert!(matches!(Type::U8.unpack_inplace(&bytes, 41), Err(Error::TruncatedInput)));
    assert!(matches!(embedded_type().unpack_inplace(&bytes, 38), Err(Error::TruncatedInput)));
}

#[test]
fn too_wide_a_fixed_region_cannot_be_packed() {
    // 8192 fields of 8 bytes need a prefix of 65538.
    let wide = Value::Struct((0..8192).map(Value::U64).collect());
    assert!(!wide.is_encodable());
    assert!(wide.variable_len().is_none());
    assert!(wide.try_packed().is_none());
    // One field less fits: the prefix is 65530.
    let fits = Value::Struct((0..8191).map(Value::U64).collect());
    assert!(fits.is_encodable());
    assert_eq!(fits.variable_len(), Some(65530));
    let bytes = fits.try_packed().expect("a record that fits was refused");
    assert_eq!(bytes.len(), 65530);
    assert_eq!(&bytes[..2], &[0xFA, 0xFF]);
    // A record that holds one that cannot be packed cannot be packed.
    assert!(Value::Struct(vec![Value::U8(1), wide]).try_packed().is_none());
}

#[test]
fn lengths_of_what_is_packed() {
    assert_eq!(outer_value().variable_len(), Some(40));
    assert_eq!(Value::U64(3).variable_len(), Some(0));
    assert_eq!(outer_value().try_packed(), Some(outer_bytes()));
}

#[test]
fn has_type_tells_shapes_apart() {
    assert!(outer_value().has_type(&outer_type()));
    assert!(!outer_value().has_type(&embedded_type()));
    assert!(!embedded_value().has_type(&outer_type()));
    assert!(!Value::U32(1).has_type(&Type::F32));
    assert!(!Value::F64(1).has_type(&Type::U64));
    assert!(Value::F32(1).has_type(&Type::F32));
    let swapped = Value::Struct(vec![Value::F64(0), Value::U64(0)]);
    assert!(!swapped.has_type(&embedded_type()));
}

#[test]
fn scalars_as_numbers() {
    assert_eq!(Value::U8(0xFF).raw(), 0xFF);
    assert_eq!(Value::U16(0xFFFF).raw(), 0xFFFF);
    assert_eq!(Value::U32(5).raw(), 5);
    assert_eq!(Value::U64(u64::MAX).raw(), u64::MAX);
    assert_eq!(Value::F32(1.0f32.to_bits()).raw(), 0x3F80_0000);
    assert_eq!(Value::F64(1.0f64.to_bits()).raw(), 0x3FF0_0000_0000_0000);
    assert_eq!(outer_value().raw(), 0);
}

#[test]
fn little_endian_bytes() {
    let mut dest = vec![0xAAu8];
    push_le(&mut dest, 0x0102_0304_0506_0708, 8);
    assert_eq!(dest, vec![0xAA, 8, 7, 6, 5, 4, 3, 2, 1]);
    push_le(&mut dest, 0x1234, 1);
    assert_eq!(dest.len(), 10);
    assert_eq!(dest[9], 0x34);
    push_le(&mut dest, 7, 0);
    assert_eq!(dest.len(), 10);
    assert_eq!(read_le(&dest, 1, 8), 0x0102_0304_0506_0708);
    assert_eq!(read_le(&dest, 1, 2), 0x0708);
    assert_eq!(read_le(&dest, 3, 0), 0);
    write_le(&mut dest, 2, 0xBEEF, 4);
    assert_eq!(dest, vec![0xAA, 8, 0xEF, 0xBE, 0, 0, 3, 2, 1, 0x34]);
}
