use encryption::alg2::{hash, Algorithm2, CipherBlock, IndexedBlock};
use encryption::Key;
use rand::{RngCore, SeedableRng};

#[test]
fn encrypt_and_decrypt_basic() {
    let mut i = 0;
    for _ in 0..100 {
        let mut rng = rand::rngs::StdRng::seed_from_u64(i);

        let mut block_bytes = [0u8; 248];
        rng.fill_bytes(&mut block_bytes);
        let original_block = Clone::clone(&block_bytes);

        let mut key_bytes = [0u8; 2048];
        rng.fill_bytes(&mut key_bytes);
        let key = Key::new(key_bytes);

        let mut index_key = [0u8; 8];
        rng.fill_bytes(&mut index_key);
        let index_key = u64::from_ne_bytes(index_key);

        let mut block = CipherBlock::new(block_bytes);
        let cipher = Algorithm2::new(&key, index_key);

        for _ in 0..100 {
            let index = i;
            cipher.cipher_block(index, &mut block);
            cipher.cipher_block(index, &mut block);
            assert_eq!(&block.0[..], &original_block[..]);
            i += 1;
        }
    }
}

#[test]
fn index_block() {
    assert_eq!(core::mem::size_of::<IndexedBlock>(), 256);
    assert_eq!(core::mem::align_of::<IndexedBlock>(), 8);
}

#[test]
fn hash_substitutes_each_byte() {
    // S_BOX[0x00] == 0x63, so hashing index 0 substitutes every byte.
    assert_eq!(hash(0), 0x6363_6363_6363_6363);
    // Only the low byte of the index differs: S_BOX[0x01] == 0x7c.
    assert_eq!(hash(1), 0x6363_6363_6363_637c);
    // S_BOX[0xff] == 0x16 in the top byte.
    assert_eq!(hash(0xff00_0000_0000_0000), 0x1663_6363_6363_6363);
}

#[test]
fn cipher_block_is_exactly_the_window_xor() {
    // With index key 0 and index 0, a zero block becomes the key window
    // that hash(0) selects.
    let mut rng = rand::rngs::StdRng::seed_from_u64(7);
    let mut key_bytes = [0u8; 2048];
    rng.fill_bytes(&mut key_bytes);
    let key = Key::new(key_bytes);

    let cipher = Algorithm2::new(&key, 0);
    let mut block = CipherBlock::new([0u8; 248]);
    cipher.cipher_block(0, &mut block);

    let window: Vec<u64> = key.subkey::<u64, 31>(hash(0) as usize);
    for t in 0..31 {
        let mut word = [0u8; 8];
        word.copy_from_slice(&block.0[8 * t..8 * t + 8]);
        assert_eq!(u64::from_le_bytes(word), window[t]);
    }
}

#[test]
fn indexed_block_round_trips_through_bytes() {
    let mut wire = [0u8; 256];
    for i in 0..256 {
        wire[i] = i as u8;
    }
    let block = IndexedBlock::from_bytes(&wire);
    assert_eq!(block.as_bytes(), wire.to_vec());

    let mut fresh = IndexedBlock::new();
    assert_eq!(fresh.index(), 0);
    assert_eq!(fresh.data(), &[0u64; 31]);
    fresh.data_mut()[0] = 0x0807_0605_0403_0201;
    let bytes = fresh.as_bytes();
    assert_eq!(&bytes[0..8], &[0u8; 8]);
    assert_eq!(&bytes[8..16], &[1, 2, 3, 4, 5, 6, 7, 8]);
    assert_eq!(&bytes[16..256], &[0u8; 240][..]);
}

#[test]
fn do_cipher_twice_restores_the_payload() {
    let mut rng = rand::rngs::StdRng::seed_from_u64(11);
    let mut key_bytes = [0u8; 2048];
    rng.fill_bytes(&mut key_bytes);
    let key = Key::new(key_bytes);
    let cipher = Algorithm2::new(&key, 0xdead_beef);

    let mut wire = [0u8; 256];
    rng.fill_bytes(&mut wire);
    let mut block = IndexedBlock::from_bytes(&wire);
    let original = *block.data();

    block.do_cipher(&cipher);
    assert_ne!(block.data(), &original);
    block.do_cipher(&cipher);
    assert_eq!(block.data(), &original);
    assert_eq!(block.as_bytes(), wire.to_vec());
}
