use cellflow::data::Value;

#[test]
fn test_val_as_u8() {
    let mut val = Value { bytes: [254, 0, 0, 0, 0, 0, 0, 0] };
    let a = val.as_u8();
    val.set_u8(a + 1);
    let b = val.as_u8();
    assert_eq!(b, 255);
    assert_eq!(val.bytes, [255, 0, 0, 0, 0, 0, 0, 0]);
}

#[test]
fn test_val_as_u32_x2() {
    let mut val = Value { bytes: [254, 0, 0, 0, 254, 0, 0, 0] };
    let mut lanes = val.as_u32_x2();
    lanes[1] += 1;
    val.set_u32_x2(lanes);
    let b = val.as_u32_x2();
    assert_eq!(b[1], 255);
    assert_eq!(val.bytes, [254, 0, 0, 0, 255, 0, 0, 0]);
}

#[test]
fn test_val_as_f32_x2() {
    let mut val = Value { bytes: [0, 0, 0, 0, 0, 0, 0, 0] };
    let f = 1.5;
    let mut lanes = val.as_u32_x2();
    lanes[1] = f32::to_bits(f);
    val.set_u32_x2(lanes);
    let b = val.as_u32_x2();
    assert_eq!(f32::from_bits(b[1]), f);
}

#[test]
fn unsigned_round_trips() {
    let mut val = Value { bytes: [0; 8] };
    val.set_u16(0xBEEF);
    assert_eq!(val.as_u16(), 0xBEEF);
    assert_eq!(val.bytes[0], 0xEF);
    assert_eq!(val.bytes[1], 0xBE);

    val.set_u32(0x0102_0304);
    assert_eq!(val.as_u32(), 0x0102_0304);
    assert_eq!(val.bytes[0], 4);
    assert_eq!(val.bytes[1], 3);
    assert_eq!(val.bytes[2], 2);
    assert_eq!(val.bytes[3], 1);

    val.set_u64(0x1122_3344_5566_7788);
    assert_eq!(val.as_u64(), 0x1122_3344_5566_7788);
    assert_eq!(val.bytes, [0x88, 0x77, 0x66, 0x55, 0x44, 0x33, 0x22, 0x11]);
}

#[test]
fn signed_round_trips() {
    let mut val = Value { bytes: [0; 8] };
    val.set_i8(-5);
    assert_eq!(val.as_i8(), -5);

    val.set_i16(-2);
    assert_eq!(val.as_i16(), -2);

    val.set_i32(-123_456);
    assert_eq!(val.as_i32(), -123_456);

    val.set_i64(-9_876_543_210);
    assert_eq!(val.as_i64(), -9_876_543_210);
}
