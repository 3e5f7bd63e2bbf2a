//! Byte-exact checks of the wire format: known encodings, round trips, and
//! single-byte corruptions of every offset slot.
use fracpack::{pack, pack_checked, unpack, verify, Error, Ty, Value};

fn opt(t: Ty) -> Ty {
    Ty::Optional(Box::new(t))
}

fn list(t: Ty) -> Ty {
    Ty::List(Box::new(t))
}

fn sv(s: &str) -> Value {
    Value::Str(s.as_bytes().to_vec())
}

fn present(v: Value) -> Value {
    Value::Optional(Some(Box::new(v)))
}

fn roundtrip(t: &Ty, v: &Value, bytes: &[u8]) {
    assert_eq!(pack(t, v), bytes.to_vec());
    assert_eq!(pack_checked(t, v), Some(bytes.to_vec()));
    assert_eq!(unpack(t, bytes).as_ref(), Ok(v));
    assert_eq!(verify(t, bytes), Ok(()));
    // nothing survives an appended byte
    let mut longer = bytes.to_vec();
    longer.push(0);
    assert!(verify(t, &longer).is_err());
}

/// Every 4-byte slot corruption at `slot` that changes the stored number
/// must be rejected, except values listed in `allowed`.
fn check_slot_mutations(t: &Ty, bytes: &[u8], slot: usize, allowed: &[u32]) {
    let canonical = u32::from_le_bytes([
        bytes[slot],
        bytes[slot + 1],
        bytes[slot + 2],
        bytes[slot + 3],
    ]);
    for delta in [1u32, 2, 3, 4, 0x100, 0x1_0000, 0x8000_0000] {
        let other = canonical.wrapping_add(delta);
        if other == canonical || allowed.contains(&other) {
            continue;
        }
        let mut mutated = bytes.to_vec();
        mutated[slot..slot + 4].copy_from_slice(&other.to_le_bytes());
        assert!(
            verify(t, &mutated).is_err(),
            "slot {} accepted {:#x}",
            slot,
            other
        );
    }
}

#[test]
fn scalar_u32_bytes() {
    roundtrip(&Ty::U32, &Value::U32(0x0A0B_0C0D), &[0x0D, 0x0C, 0x0B, 0x0A]);
}

#[test]
fn scalar_widths() {
    roundtrip(&Ty::U8, &Value::U8(0xAB), &[0xAB]);
    roundtrip(&Ty::U16, &Value::U16(0x1234), &[0x34, 0x12]);
    roundtrip(
        &Ty::U64,
        &Value::U64(0x0102_0304_0506_0708),
        &[8, 7, 6, 5, 4, 3, 2, 1],
    );
    roundtrip(&Ty::I8, &Value::I8(-1), &[0xFF]);
    roundtrip(&Ty::I16, &Value::I16(-2), &[0xFE, 0xFF]);
    roundtrip(&Ty::I32, &Value::I32(-3), &[0xFD, 0xFF, 0xFF, 0xFF]);
    roundtrip(
        &Ty::I64,
        &Value::I64(i64::MIN),
        &[0, 0, 0, 0, 0, 0, 0, 0x80],
    );
}

#[test]
fn float_bits_copied() {
    let bits = 1.5f32.to_bits();
    assert_eq!(pack(&Ty::F32, &Value::F32(bits)), 1.5f32.to_le_bytes().to_vec());
    let bits64 = (-2.25f64).to_bits();
    assert_eq!(
        pack(&Ty::F64, &Value::F64(bits64)),
        (-2.25f64).to_le_bytes().to_vec()
    );
    assert_eq!(unpack(&Ty::F32, &1.5f32.to_le_bytes()), Ok(Value::F32(bits)));
}

#[test]
fn empty_string_sentinel() {
    roundtrip(&Ty::Str, &sv(""), &[0, 0, 0, 0]);
}

#[test]
fn string_hi() {
    roundtrip(
        &Ty::Str,
        &sv("hi"),
        &[4, 0, 0, 0, 2, 0, 0, 0, 0x68, 0x69],
    );
    check_slot_mutations(
        &Ty::Str,
        &[4, 0, 0, 0, 2, 0, 0, 0, 0x68, 0x69],
        0,
        &[],
    );
}

#[test]
fn optional_u32_absent() {
    roundtrip(&opt(Ty::U32), &Value::Optional(None), &[1, 0, 0, 0]);
}

#[test]
fn optional_u32_present() {
    roundtrip(
        &opt(Ty::U32),
        &present(Value::U32(7)),
        &[4, 0, 0, 0, 7, 0, 0, 0],
    );
    check_slot_mutations(&opt(Ty::U32), &[4, 0, 0, 0, 7, 0, 0, 0], 0, &[]);
}

#[test]
fn optional_string_present_empty() {
    // present-but-empty text uses the 0 sentinel; absent uses 1
    roundtrip(&opt(Ty::Str), &present(sv("")), &[0, 0, 0, 0]);
    roundtrip(&opt(Ty::Str), &Value::Optional(None), &[1, 0, 0, 0]);
}

#[test]
fn list_of_u16() {
    roundtrip(
        &list(Ty::U16),
        &Value::List(vec![Value::U16(0x1111), Value::U16(0x2222)]),
        &[4, 0, 0, 0, 4, 0, 0, 0, 0x11, 0x11, 0x22, 0x22],
    );
}

#[test]
fn list_of_strings() {
    // the element offsets measure from each slot's own first byte, so the
    // second slot holds 9: past its own 4 bytes and the 5-byte first body
    let bytes = [
        4, 0, 0, 0, // top-level offset slot
        8, 0, 0, 0, // element region byte length
        8, 0, 0, 0, // first element offset
        9, 0, 0, 0, // second element offset
        1, 0, 0, 0, 0x61, // "a"
        1, 0, 0, 0, 0x62, // "b"
    ];
    roundtrip(
        &list(Ty::Str),
        &Value::List(vec![sv("a"), sv("b")]),
        &bytes,
    );
    check_slot_mutations(&list(Ty::Str), &bytes, 8, &[]);
    check_slot_mutations(&list(Ty::Str), &bytes, 12, &[]);
}

#[test]
fn empty_list_sentinel() {
    roundtrip(&list(Ty::U16), &Value::List(vec![]), &[0, 0, 0, 0]);
    roundtrip(&opt(list(Ty::U16)), &present(Value::List(vec![])), &[0, 0, 0, 0]);
    roundtrip(&opt(list(Ty::U16)), &Value::Optional(None), &[1, 0, 0, 0]);
}

#[test]
fn record_fixed_inline() {
    let t = Ty::Record(vec![Ty::U8, Ty::U16]);
    let v = Value::Record(vec![Value::U8(1), Value::U16(0x0302)]);
    roundtrip(&t, &v, &[1, 2, 3]);
}

#[test]
fn record_with_heap() {
    let t = Ty::Record(vec![Ty::U32, Ty::Str]);
    let v = Value::Record(vec![Value::U32(7), sv("hi")]);
    let bytes = [7, 0, 0, 0, 4, 0, 0, 0, 2, 0, 0, 0, 0x68, 0x69];
    roundtrip(&t, &v, &bytes);
    check_slot_mutations(&t, &bytes, 4, &[]);
}

#[test]
fn record_two_strings() {
    let t = Ty::Record(vec![Ty::Str, Ty::Str]);
    let v = Value::Record(vec![sv("a"), sv("bc")]);
    let bytes = [
        8, 0, 0, 0, // first slot: fixed region remainder 4 + 4
        9, 0, 0, 0, // second slot: 4 remaining + 5-byte first body
        1, 0, 0, 0, 0x61, // "a"
        2, 0, 0, 0, 0x62, 0x63, // "bc"
    ];
    roundtrip(&t, &v, &bytes);
}

#[test]
fn nested_record_optional() {
    let inner = Ty::Record(vec![Ty::U8, Ty::U8]);
    let t = opt(inner);
    let v = present(Value::Record(vec![Value::U8(5), Value::U8(6)]));
    roundtrip(&t, &v, &[4, 0, 0, 0, 5, 6]);
}

#[test]
fn bad_utf8_rejected() {
    // a two-byte text body holding 0xFF 0xFF is not UTF-8
    let bytes = [4, 0, 0, 0, 2, 0, 0, 0, 0xFF, 0xFF];
    assert_eq!(verify(&Ty::Str, &bytes), Err(Error::BadUTF8));
    assert_eq!(unpack(&Ty::Str, &bytes), Err(Error::BadUTF8));
}

#[test]
fn bad_empty_encoding_rejected() {
    // a heap length of zero must have been the sentinel instead
    let bytes = [4, 0, 0, 0, 0, 0, 0, 0];
    assert_eq!(verify(&Ty::Str, &bytes), Err(Error::BadEmptyEncoding));
    assert_eq!(verify(&list(Ty::U16), &bytes), Err(Error::BadEmptyEncoding));
}

#[test]
fn bad_size_rejected() {
    // three body bytes cannot hold two-byte elements
    let bytes = [4, 0, 0, 0, 3, 0, 0, 0, 1, 2, 3];
    assert_eq!(verify(&list(Ty::U16), &bytes), Err(Error::BadSize));
}

#[test]
fn read_past_end_rejected() {
    assert_eq!(verify(&Ty::U32, &[1, 2]), Err(Error::ReadPastEnd));
    assert_eq!(unpack(&Ty::U64, &[0; 7]), Err(Error::ReadPastEnd));
    let bytes = [4, 0, 0, 0, 9, 0, 0, 0, 0x68];
    assert_eq!(verify(&Ty::Str, &bytes), Err(Error::ReadPastEnd));
}

#[test]
fn sentinel_zero_in_optional_scalar_slot() {
    // offset 0 means present-and-empty, which a number cannot be
    assert_eq!(verify(&opt(Ty::U32), &[0, 0, 0, 0]), Err(Error::BadOffset));
    assert_eq!(unpack(&opt(Ty::U32), &[0, 0, 0, 0]), Err(Error::BadOffset));
}

#[test]
fn sentinel_one_in_plain_slot() {
    // offset 1 means absent, which a plain string or list cannot be
    assert_eq!(verify(&Ty::Str, &[1, 0, 0, 0]), Err(Error::BadOffset));
    assert_eq!(verify(&list(Ty::U8), &[1, 0, 0, 0]), Err(Error::BadOffset));
    let t = Ty::Record(vec![Ty::Str]);
    assert_eq!(verify(&t, &[1, 0, 0, 0]), Err(Error::BadOffset));
}

#[test]
fn trailing_bytes_rejected() {
    let mut b = pack(&Ty::Str, &sv("hi"));
    b.push(0);
    assert_eq!(verify(&Ty::Str, &b), Err(Error::BadSize));
    let mut c = pack(&Ty::U32, &Value::U32(1));
    c.extend_from_slice(&[9, 9]);
    assert!(verify(&Ty::U32, &c).is_err());
}

#[test]
fn non_canonical_offsets_rejected() {
    // the only accepted top-level offset for a present variable value is 4
    for wrong in [2u32, 3, 5, 8, 0x10] {
        let mut b = pack(&Ty::Str, &sv("hi"));
        b[0..4].copy_from_slice(&wrong.to_le_bytes());
        assert!(verify(&Ty::Str, &b).is_err(), "accepted offset {}", wrong);
    }
}

#[test]
fn pack_checked_rejects_what_packing_cannot_take() {
    // optional directly inside optional has colliding sentinels
    let t = opt(opt(Ty::U8));
    assert_eq!(pack_checked(&t, &Value::Optional(None)), None);
    // a value of the wrong shape
    assert_eq!(pack_checked(&Ty::U8, &sv("x")), None);
    // text that is not UTF-8
    assert_eq!(
        pack_checked(&Ty::Str, &Value::Str(vec![0xFF, 0xFE])),
        None
    );
    // a record schema with no fields
    assert_eq!(
        pack_checked(&Ty::Record(vec![]), &Value::Record(vec![])),
        None
    );
}

#[test]
fn unpack_rebuilds_exactly() {
    let t = Ty::Record(vec![
        Ty::U32,
        Ty::Str,
        opt(Ty::U16),
        list(Ty::Str),
        opt(Ty::Str),
    ]);
    let v = Value::Record(vec![
        Value::U32(0xDEAD_BEEF),
        sv("name"),
        present(Value::U16(3)),
        Value::List(vec![sv(""), sv("xy")]),
        Value::Optional(None),
    ]);
    let b = pack(&t, &v);
    assert_eq!(unpack(&t, &b), Ok(v));
    assert_eq!(verify(&t, &b), Ok(()));
}

#[test]
fn decode_then_encode_is_identity_on_bytes() {
    // whatever decodes re-encodes to the very same bytes
    let samples: Vec<(Ty, Vec<u8>)> = vec![
        (Ty::U32, vec![0x0D, 0x0C, 0x0B, 0x0A]),
        (Ty::Str, vec![4, 0, 0, 0, 2, 0, 0, 0, 0x68, 0x69]),
        (opt(Ty::U32), vec![1, 0, 0, 0]),
        (opt(Ty::Str), vec![0, 0, 0, 0]),
        (
            list(Ty::Str),
            vec![4, 0, 0, 0, 8, 0, 0, 0, 8, 0, 0, 0, 9, 0, 0, 0, 1, 0, 0, 0, 0x61, 1, 0, 0, 0,
                0x62],
        ),
        (
            Ty::Record(vec![Ty::U32, Ty::Str]),
            vec![7, 0, 0, 0, 4, 0, 0, 0, 2, 0, 0, 0, 0x68, 0x69],
        ),
    ];
    for (t, b) in samples {
        let v = unpack(&t, &b).unwrap();
        assert_eq!(pack(&t, &v), b);
    }
}

#[test]
fn present_empty_and_absent_are_the_one_slot_swap_that_stays_valid() {
    // flipping the optional-string slot between its two sentinels moves
    // between two canonical encodings; every other slot change is rejected
    let t = opt(Ty::Str);
    assert_eq!(unpack(&t, &[0, 0, 0, 0]), Ok(present(sv(""))));
    assert_eq!(unpack(&t, &[1, 0, 0, 0]), Ok(Value::Optional(None)));
    for wrong in [2u32, 3, 4, 5, 0x100] {
        assert!(verify(&t, &wrong.to_le_bytes()).is_err());
    }
}
