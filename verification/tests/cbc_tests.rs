use speck_cbc::block128::Block128;
use speck_cbc::cbc::{CipherErrors, CBC};
use speck_cbc::pkcs7::PKCS7;
use speck_cbc::speck_128_128::Speck_128_128;
use speck_cbc::util::{bytes_to_words, words_to_bytes};

#[test]
fn cbc_works1() {
    let plaintext = [0x7469206564616d20, 0x6c61766975716520];
    let key: Block128 = Block128::from_u128(0x07060504030201000f0e0d0c0b0a0908);
    let iv1: Block128 = Block128::from_u128(0xAFF92B19D2240A90DD55C781B2E48BB0);

    let s: Speck_128_128 = Speck_128_128::new(key.clone());
    let c: CBC<PKCS7> = CBC::new(iv1.clone(), key.clone());

    let ciphertext1: Vec<u64> = c.cbc_encrypt_blocks(&plaintext);
    let (ct1, ct2) = s.speck_encrypt(iv1.get_a() ^ plaintext[0], iv1.get_b() ^ plaintext[1]);
    assert_eq!(ciphertext1, [ct1, ct2].to_vec());

    let decryptedtext1: Vec<u64> = c.cbc_decrypt_blocks(&ciphertext1);
    assert_eq!(decryptedtext1, plaintext);
}

#[test]
fn cbc_works2() {
    let long_plaintext = [
        0xB6ECC96CEC3EE647,
        0x0D698FDCED742594,
        0x78BCB34D52D1B961,
        0xA03EF56F828A60DE,
        0xE725480B83C30B2C,
        0xE57669757165C2BA,
    ];
    let key: [u64; 2] = [0x0706050403020100, 0x0f0e0d0c0b0a0908];
    let iv2: [u64; 2] = [0xD2C4B7D96C49160E, 0x4EFE0C3E3B9FFD85];

    let c: CBC<PKCS7> = CBC::new(
        Block128::from_halves(iv2[0], iv2[1]),
        Block128::from_halves(key[0], key[1]),
    );

    let ciphertext2: Vec<u64> = c.cbc_encrypt_blocks(&long_plaintext);
    let decryptedtext2: Vec<u64> = c.cbc_decrypt_blocks(&ciphertext2);
    assert_eq!(decryptedtext2, long_plaintext);
}

fn test_cbc() -> CBC<PKCS7> {
    let key = Block128::from_u128(0x07060504030201000f0e0d0c0b0a0908);
    let iv = Block128::from_u128(0xAFF92B19D2240A90DD55C781B2E48BB0);
    CBC::new(iv, key)
}

#[test]
fn cbc_byte_array_roundtrip() {
    let c = test_cbc();
    let message: Vec<u8> = (0u8..23u8).map(|x| x.wrapping_mul(37).wrapping_add(11)).collect();

    let ciphertext = c.cbc_encrypt_byte_array(message.as_slice()).unwrap();
    // 23 bytes pad to 32: the next multiple of 16 strictly above 23.
    assert_eq!(ciphertext.len(), 32);
    assert_ne!(&ciphertext[..23], message.as_slice());

    let decrypted = c.cbc_decrypt_byte_array(ciphertext.as_slice()).unwrap();
    assert_eq!(decrypted, message);
}

#[test]
fn cbc_byte_array_roundtrip_empty() {
    let c = test_cbc();
    let message: [u8; 0] = [];

    // The empty plaintext is valid: padding adds one full block.
    let ciphertext = c.cbc_encrypt_byte_array(&message).unwrap();
    assert_eq!(ciphertext.len(), 16);

    let decrypted = c.cbc_decrypt_byte_array(ciphertext.as_slice()).unwrap();
    assert_eq!(decrypted, message);
}

#[test]
fn cbc_byte_array_roundtrip_aligned() {
    let c = test_cbc();
    // An aligned plaintext still gains a full extra padding block.
    let message: Vec<u8> = (0u8..32u8).collect();

    let ciphertext = c.cbc_encrypt_byte_array(message.as_slice()).unwrap();
    assert_eq!(ciphertext.len(), 48);

    let decrypted = c.cbc_decrypt_byte_array(ciphertext.as_slice()).unwrap();
    assert_eq!(decrypted, message);
}

#[test]
fn cbc_byte_array_known_first_block() {
    let c = test_cbc();
    let s = Speck_128_128::new(Block128::from_u128(0x07060504030201000f0e0d0c0b0a0908));
    let iv = Block128::from_u128(0xAFF92B19D2240A90DD55C781B2E48BB0);

    // 16 bytes of plaintext: the first ciphertext block must equal the
    // Speck encryption of (plaintext XOR IV), exactly as in the worked
    // vector; the second block carries the padding.
    let message: [u8; 16] = [
        0x74, 0x69, 0x20, 0x65, 0x64, 0x61, 0x6d, 0x20, 0x6c, 0x61, 0x76, 0x69, 0x75, 0x71, 0x65,
        0x20,
    ];
    let ciphertext = c.cbc_encrypt_byte_array(&message).unwrap();
    assert_eq!(ciphertext.len(), 32);

    let (ct1, ct2) = s.speck_encrypt(
        iv.get_a() ^ 0x7469206564616d20,
        iv.get_b() ^ 0x6c61766975716520,
    );
    let first_block = words_to_bytes(&[ct1, ct2]);
    assert_eq!(&ciphertext[..16], first_block.as_slice());
}

#[test]
fn cbc_decrypt_rejects_bad_input() {
    let c = test_cbc();
    let empty: [u8; 0] = [];
    assert_eq!(
        c.cbc_decrypt_byte_array(&empty),
        Err(CipherErrors::WrongInput)
    );
    let misaligned: [u8; 8] = [0; 8];
    assert_eq!(
        c.cbc_decrypt_byte_array(&misaligned),
        Err(CipherErrors::WrongInput)
    );
}

#[test]
fn cbc_decrypt_detects_tampered_padding() {
    let c = test_cbc();

    // Chain-encrypt a "padded" buffer whose final byte is zero: since
    // decryption inverts the chain exactly, padding removal sees that
    // byte and must fail, never truncate silently.
    let mut forged: Vec<u8> = (1u8..=16u8).collect();
    forged[15] = 0;
    let ct_words = c.cbc_encrypt_blocks(bytes_to_words(forged.as_slice()).as_slice());
    let ct_bytes = words_to_bytes(ct_words.as_slice());
    assert_eq!(
        c.cbc_decrypt_byte_array(ct_bytes.as_slice()),
        Err(CipherErrors::WrongPadding)
    );

    // The same with a final byte larger than the block length.
    forged[15] = 17;
    let ct_words2 = c.cbc_encrypt_blocks(bytes_to_words(forged.as_slice()).as_slice());
    let ct_bytes2 = words_to_bytes(ct_words2.as_slice());
    assert_eq!(
        c.cbc_decrypt_byte_array(ct_bytes2.as_slice()),
        Err(CipherErrors::WrongPadding)
    );
}
