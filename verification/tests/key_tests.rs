use encryption::Key;

#[test]
fn key_len() {
    // 53280 is a special number.
    // It is equal to `2^15*(1+5/8)+32`, so that the modulus in `subkey`
    // can reduce to bitwise instructions for the production key length.
    let key = Key::<53280>::new([0u8; 53280]);
    let words: Vec<u8> = key.as_words::<u8>();
    assert_eq!(words.len(), 53280);
    assert_eq!(words.len() - 32, 2usize.pow(15) * 13 / 8);
}

#[test]
fn subkey() {
    const KEY_LEN: usize = 32;
    let mut bytes = [0u8; KEY_LEN];
    for i in 0..KEY_LEN {
        bytes[i] = i as u8;
    }

    let key = Key::new(bytes);
    for i in 0..32 {
        let subkey: Vec<u32> = key.subkey::<u32, 1>(i);
        let b = (i * 4 % KEY_LEN) as u8;
        let expected = [b, b + 1, b + 2, b + 3];
        assert_eq!(subkey[0], u32::from_ne_bytes(expected));
    }

    for i in 0..32 {
        let subkey: Vec<u32> = key.subkey::<u32, 4>(i);
        // The numbers are a bit strange here because when getting a 16 byte subkey from a 32
        // byte key, there are only 5 positions we can go to to get a unique key. We always
        // check the last 32 bit word of the subkey, so we need to add 12 because 3 * 4. We do
        // mod 20 because of 5 possible alignments we can have, 5 * 4 == 12
        let b = (i * 4 % 20) as u8 + 12;
        let expected = [b, b + 1, b + 2, b + 3];
        assert_eq!(subkey[3], u32::from_ne_bytes(expected));
    }
    // Make sure this works for zero sized windows
    let zst: Vec<u32> = key.subkey::<u32, 0>(0);
    assert!(zst.is_empty());
}

#[test]
fn as_words_truncates_partial_word() {
    // 10 bytes hold two whole 32-bit words; the trailing two bytes are
    // truncated.
    let key = Key::<10>::new([1, 0, 0, 0, 2, 0, 0, 0, 3, 4]);
    let words: Vec<u32> = key.as_words::<u32>();
    assert_eq!(words, vec![1u32, 2u32]);

    let wide: Vec<u64> = key.as_words::<u64>();
    assert_eq!(wide.len(), 1);
    assert_eq!(wide[0], 0x0000_0002_0000_0001);
}

#[test]
fn subkey_wraps_modulo_start_positions() {
    // An offset far past the end of the key wraps: with 8 words and a
    // window of 3 there are 6 start positions.
    let mut bytes = [0u8; 32];
    for i in 0..32 {
        bytes[i] = i as u8;
    }
    let key = Key::new(bytes);
    let a: Vec<u32> = key.subkey::<u32, 3>(7);
    let b: Vec<u32> = key.subkey::<u32, 3>(7 + 6 * 1000);
    assert_eq!(a, b);
    assert_eq!(a.len(), 3);
    assert_eq!(a[0], u32::from_ne_bytes([4, 5, 6, 7]));
}
