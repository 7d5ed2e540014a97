use speck_cbc::block128::Block128;
use speck_cbc::speck::Speck;
use speck_cbc::speck_128_128::Speck_128_128;

#[test]
fn speck_basic_works1() {
    let plain_text: [u64; 2] = [0x7469206564616d20, 0x6c61766975716520];
    let key: [u64; 2] = [0x0706050403020100, 0x0f0e0d0c0b0a0908];
    let expected_ciphertext = [0x7860fedf5c570d18, 0xa65d985179783265];

    let s: Speck = Speck::new(&key);

    let (cypher_a, cypher_b) = s.speck_encrypt(plain_text[0], plain_text[1]);
    assert_eq!([cypher_a, cypher_b], expected_ciphertext);

    let (decr_a, decr_b) = s.speck_decrypt(cypher_a, cypher_b);
    assert_eq!([decr_a, decr_b], plain_text);
}

#[test]
fn speck_128_128_basic_works1() {
    let plain_text: [u64; 2] = [0x7469206564616d20, 0x6c61766975716520];
    let key: Block128 = Block128::from_u128(0x07060504030201000f0e0d0c0b0a0908);
    let expected_ciphertext = [0x7860fedf5c570d18, 0xa65d985179783265];

    let s: Speck_128_128 = Speck_128_128::new(key);

    let (cypher_a, cypher_b) = s.speck_encrypt(plain_text[0], plain_text[1]);
    assert_eq!([cypher_a, cypher_b], expected_ciphertext);

    let (decr_a, decr_b) = s.speck_decrypt(cypher_a, cypher_b);
    assert_eq!([decr_a, decr_b], plain_text);
}
