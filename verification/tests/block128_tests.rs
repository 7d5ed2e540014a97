use speck_cbc::block128::Block128;

#[test]
fn block128_works1() {
    let input1: u128 = 0x7469206564616d206c61766975716520;
    let block1: Block128 = Block128::from_u128(input1);
    let output1: Vec<u8> = block1.to_bytes();
    let expected1: &[u8] = &[
        0x74, 0x69, 0x20, 0x65, 0x64, 0x61, 0x6d, 0x20, 0x6c, 0x61, 0x76, 0x69, 0x75, 0x71, 0x65,
        0x20,
    ];

    assert_eq!(output1.as_slice(), expected1);
}

#[test]
fn block128_works2() {
    let input1: &[u8; 16] = &[
        0x74, 0x69, 0x20, 0x65, 0x64, 0x61, 0x6d, 0x20, 0x6c, 0x61, 0x76, 0x69, 0x75, 0x71, 0x65,
        0x20,
    ];
    let block1: Block128 = Block128::from_bytes(input1);
    let output1: u128 = ((block1.get_a() as u128) << 64) | (block1.get_b() as u128);
    let expected1: u128 = 0x7469206564616d206c61766975716520;

    assert_eq!(output1, expected1);
}

#[test]
fn block128_works3() {
    let input1: u128 = 0x7469206564616d206c61766975716520;
    let block1: Block128 = Block128::from_u128(input1);
    let output_a: u64 = block1.get_a();
    let output_b: u64 = block1.get_b();
    let expected_a: u64 = 0x7469206564616d20;
    let expected_b: u64 = 0x6c61766975716520;

    assert_eq!(output_a, expected_a);
    assert_eq!(output_b, expected_b);
}

#[test]
fn block128_try_from_bytes_rejects_short_input() {
    // 15 bytes: one short of a block.
    let input1: &[u8] = &[
        0x74, 0x69, 0x20, 0x65, 0x61, 0x6d, 0x20, 0x6c, 0x61, 0x76, 0x69, 0x75, 0x71, 0x65, 0x20,
    ];
    assert!(Block128::try_from_bytes(input1).is_none());
    let input2: &[u8] = &[0u8; 17];
    assert!(Block128::try_from_bytes(input2).is_none());
}

#[test]
fn block128_bytes_roundtrip() {
    let bytes: Vec<u8> = (0u8..16u8).collect();
    let block = Block128::try_from_bytes(bytes.as_slice()).unwrap();
    assert_eq!(block.get_a(), 0x0001020304050607);
    assert_eq!(block.get_b(), 0x08090a0b0c0d0e0f);
    assert_eq!(block.to_bytes(), bytes);
}

#[test]
fn block128_xor_is_halfwise() {
    let x = Block128::from_halves(0xff00ff00ff00ff00, 0x0123456789abcdef);
    let y = Block128::from_halves(0x0f0f0f0f0f0f0f0f, 0xffffffffffffffff);
    let z = x.xor(y);
    assert_eq!(z.get_a(), 0xf00ff00ff00ff00f);
    assert_eq!(z.get_b(), 0xfedcba9876543210);
}
