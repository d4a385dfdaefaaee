use neutron_router::geom::MAX_COORD;
use neutron_router::store::{decode_coord, load_store_from_bytes, StarKind, StoreError};

fn push_u32(out: &mut Vec<u8>, v: u32) {
    out.extend_from_slice(&v.to_le_bytes());
}

fn push_record(out: &mut Vec<u8>, x: f32, y: f32, z: f32, kind: u8, name: &str) {
    push_u32(out, x.to_bits());
    push_u32(out, y.to_bits());
    push_u32(out, z.to_bits());
    out.push(kind);
    push_u32(out, name.len() as u32);
    out.extend_from_slice(name.as_bytes());
}

fn snapshot(records: &[(f32, f32, f32, u8, &str)]) -> Vec<u8> {
    let mut out = Vec::new();
    push_u32(&mut out, 1); // version, not interpreted
    push_u32(&mut out, records.len() as u32);
    for &(x, y, z, kind, name) in records {
        push_record(&mut out, x, y, z, kind, name);
    }
    out
}

#[test]
fn decode_coord_exact_values() {
    assert_eq!(decode_coord(1.0f32.to_bits()), 1024);
    assert_eq!(decode_coord((-2.5f32).to_bits()), -2560);
    assert_eq!(decode_coord(0.25f32.to_bits()), 256);
    assert_eq!(decode_coord(0.0f32.to_bits()), 0);
    assert_eq!(decode_coord((-0.0f32).to_bits()), 0);
    assert_eq!(decode_coord(50.0f32.to_bits()), 51200);
    assert_eq!(decode_coord(100000.0f32.to_bits()), 102400000);
}

#[test]
fn decode_coord_truncates_toward_zero() {
    // 1/3 is not dyadic: 0.333... * 1024 = 341.33..., truncated.
    let third = 1.0f32 / 3.0f32;
    let v = decode_coord(third.to_bits());
    assert!(v == 341);
    let v = decode_coord((-third).to_bits());
    assert!(v == -341);
}

#[test]
fn decode_coord_saturates() {
    assert_eq!(decode_coord(1.0e30f32.to_bits()), MAX_COORD);
    assert_eq!(decode_coord((-1.0e30f32).to_bits()), -MAX_COORD);
    assert_eq!(decode_coord(f32::INFINITY.to_bits()), MAX_COORD);
    assert_eq!(decode_coord(f32::NEG_INFINITY.to_bits()), -MAX_COORD);
    assert_eq!(decode_coord(f32::NAN.to_bits()), MAX_COORD);
}

#[test]
fn decode_coord_tiny_is_zero() {
    assert_eq!(decode_coord(1.0e-30f32.to_bits()), 0);
    assert_eq!(decode_coord(f32::MIN_POSITIVE.to_bits()), 0);
}

#[test]
fn load_store_round_trip() {
    let bytes = snapshot(&[
        (0.0, 0.0, 0.0, 2, "Jackson's Lighthouse"),
        (50.0, 0.0, 0.0, 1, "Waystation α"),
        (100.0, -2.5, 1.0, 0, "Backwater"),
    ]);
    let store = load_store_from_bytes(&bytes).unwrap();
    assert_eq!(store.len(), 3);
    assert_eq!(store.names[0], "Jackson's Lighthouse");
    assert_eq!(store.names[1], "Waystation α");
    assert_eq!(store.names[2], "Backwater");
    assert_eq!(store.kinds[0], StarKind::Neutron);
    assert_eq!(store.kinds[1], StarKind::General);
    assert_eq!(store.kinds[2], StarKind::Unknown);
    assert_eq!(store.coords[0].x, 0);
    assert_eq!(store.coords[1].x, 51200);
    assert_eq!(store.coords[2].x, 102400);
    assert_eq!(store.coords[2].y, -2560);
    assert_eq!(store.coords[2].z, 1024);
}

#[test]
fn load_store_unknown_category_bytes() {
    let bytes = snapshot(&[(1.0, 2.0, 3.0, 77, "odd")]);
    let store = load_store_from_bytes(&bytes).unwrap();
    assert_eq!(store.kinds[0], StarKind::Unknown);
}

#[test]
fn load_store_empty() {
    let bytes = snapshot(&[]);
    let store = load_store_from_bytes(&bytes).unwrap();
    assert_eq!(store.len(), 0);
}

#[test]
fn load_store_truncated_header() {
    assert!(matches!(load_store_from_bytes(&[1, 0, 0]), Err(StoreError::Malformed)));
}

#[test]
fn load_store_truncated_record() {
    let mut bytes = snapshot(&[(1.0, 2.0, 3.0, 2, "ok")]);
    bytes.truncate(bytes.len() - 1);
    assert!(matches!(load_store_from_bytes(&bytes), Err(StoreError::Malformed)));
}

#[test]
fn load_store_name_length_past_buffer() {
    let mut bytes = Vec::new();
    push_u32(&mut bytes, 1);
    push_u32(&mut bytes, 1);
    push_u32(&mut bytes, 1.0f32.to_bits());
    push_u32(&mut bytes, 1.0f32.to_bits());
    push_u32(&mut bytes, 1.0f32.to_bits());
    bytes.push(2);
    push_u32(&mut bytes, 100); // name runs past the buffer
    bytes.extend_from_slice(b"abc");
    assert!(matches!(load_store_from_bytes(&bytes), Err(StoreError::Malformed)));
}

#[test]
fn load_store_invalid_utf8_name() {
    let mut bytes = Vec::new();
    push_u32(&mut bytes, 1);
    push_u32(&mut bytes, 1);
    push_u32(&mut bytes, 1.0f32.to_bits());
    push_u32(&mut bytes, 1.0f32.to_bits());
    push_u32(&mut bytes, 1.0f32.to_bits());
    bytes.push(2);
    push_u32(&mut bytes, 2);
    bytes.extend_from_slice(&[0xff, 0xfe]);
    assert!(matches!(load_store_from_bytes(&bytes), Err(StoreError::Malformed)));
}

#[test]
fn load_store_no_partial_store_on_failure() {
    // Two good records followed by a truncated third: the whole load fails.
    let mut bytes = snapshot(&[
        (0.0, 0.0, 0.0, 2, "one"),
        (1.0, 0.0, 0.0, 1, "two"),
        (2.0, 0.0, 0.0, 2, "three"),
    ]);
    bytes[4] = 3; // count stays 3
    bytes.truncate(bytes.len() - 2);
    assert!(load_store_from_bytes(&bytes).is_err());
}

#[test]
fn name_lookup_last_write_wins() {
    let bytes = snapshot(&[
        (0.0, 0.0, 0.0, 2, "Twin"),
        (1.0, 0.0, 0.0, 2, "Solo"),
        (2.0, 0.0, 0.0, 2, "Twin"),
    ]);
    let store = load_store_from_bytes(&bytes).unwrap();
    assert_eq!(store.name_to_idx(&String::from("Twin")), Some(2));
    assert_eq!(store.name_to_idx(&String::from("Solo")), Some(1));
    assert_eq!(store.name_to_idx(&String::from("Missing")), None);
}
