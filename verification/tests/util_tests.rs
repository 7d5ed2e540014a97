use speck_cbc::util::{bytes_to_words, my_extend_from_slice, words_to_bytes};

#[test]
fn words_to_bytes_is_big_endian() {
    let words: [u64; 2] = [0x0102030405060708, 0x090a0b0c0d0e0f10];
    let bytes = words_to_bytes(&words);
    assert_eq!(
        bytes,
        vec![1, 2, 3, 4, 5, 6, 7, 8, 9, 0x0a, 0x0b, 0x0c, 0x0d, 0x0e, 0x0f, 0x10]
    );
}

#[test]
fn bytes_to_words_is_big_endian() {
    let bytes: Vec<u8> = (1u8..=16u8).collect();
    let words = bytes_to_words(bytes.as_slice());
    assert_eq!(words, vec![0x0102030405060708, 0x090a0b0c0d0e0f10]);
}

#[test]
fn bytes_words_roundtrip() {
    let bytes: Vec<u8> = (0u8..64u8).map(|x| x.wrapping_mul(73)).collect();
    let words = bytes_to_words(bytes.as_slice());
    assert_eq!(words_to_bytes(words.as_slice()), bytes);

    let empty: [u8; 0] = [];
    assert_eq!(bytes_to_words(&empty), Vec::<u64>::new());
    assert_eq!(words_to_bytes(&[]), Vec::<u8>::new());
}

#[test]
fn my_extend_from_slice_appends() {
    let mut buffer: Vec<u8> = vec![1, 2, 3];
    my_extend_from_slice(&mut buffer, &[4, 5]);
    assert_eq!(buffer, vec![1, 2, 3, 4, 5]);
    my_extend_from_slice(&mut buffer, &[]);
    assert_eq!(buffer, vec![1, 2, 3, 4, 5]);
}
