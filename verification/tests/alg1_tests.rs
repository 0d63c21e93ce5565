use encryption::alg1::{hash, Algorithm1, CipherBlock};
use encryption::{CipherBlockRef, GenericCipher, Key, WindowMode};
use rand::{RngCore, SeedableRng};

#[test]
fn zero_block_becomes_the_selected_window() {
    // Block of 28 zero bytes, random 1024-byte key, index 0, index key 0:
    // the ciphertext is exactly the subkey window that hash(0) selects,
    // and transforming again restores the zeros.
    let mut rng = rand::rngs::StdRng::seed_from_u64(1);
    let mut key_bytes = [0u8; 1024];
    rng.fill_bytes(&mut key_bytes);
    let key = Key::new(key_bytes);

    let cipher = Algorithm1::new(&key, 0);
    let mut block = CipherBlock::new([0u8; 28]);
    cipher.cipher_block(0, &mut block);

    let window: Vec<u32> = key.subkey::<u32, 7>(hash(0) as usize);
    let ciphertext = block.bytes().to_vec();
    for t in 0..7 {
        let mut word = [0u8; 4];
        word.copy_from_slice(&ciphertext[4 * t..4 * t + 4]);
        assert_eq!(u32::from_le_bytes(word), window[t]);
    }

    cipher.cipher_block(0, &mut block);
    assert_eq!(block.0, [0u8; 28]);
}

#[test]
fn hash32_substitutes_each_byte() {
    assert_eq!(hash(0), 0x6363_6363);
    assert_eq!(hash(1), 0x6363_637c);
}

#[test]
fn adjacent_indices_diffuse() {
    // Diffusion sanity: hashes of adjacent indices always differ, and in
    // the vast majority of cases the difference is more than one bit.
    // (A pure byte substitution changes exactly the bytes that changed
    // in the index, so adjacent hashes without a carry differ in exactly
    // one byte; the diffusion is within that byte.)
    let mut multi_bit = 0usize;
    for i in 0..1000u64 {
        let d = encryption::alg2::hash(i) ^ encryption::alg2::hash(i + 1);
        assert_ne!(d, 0);
        if d.count_ones() > 1 {
            multi_bit += 1;
        }
    }
    assert!(multi_bit >= 950);
}

#[test]
fn bit_granular_mode_is_an_involution() {
    let mut rng = rand::rngs::StdRng::seed_from_u64(3);
    let mut key_bytes = [0u8; 64];
    rng.fill_bytes(&mut key_bytes);
    let key = Key::new(key_bytes);

    let cipher: GenericCipher<'_, encryption::alg1::SBoxHash32, u32, 64, 28> =
        GenericCipher::with_mode(
            encryption::alg1::SBoxHash32,
            &key,
            0x1234_5678,
            WindowMode::BitGranular,
        );

    let mut plain = [0u8; 28];
    rng.fill_bytes(&mut plain);

    let mut block: CipherBlockRef<28, 4> = CipherBlockRef::new(plain.to_vec());
    cipher.cipher_block::<7, 4, u32>(99, &mut block);
    let once = block.into_vec();
    assert_ne!(once, plain.to_vec());

    let mut block: CipherBlockRef<28, 4> = CipherBlockRef::new(once);
    cipher.cipher_block::<7, 4, u32>(99, &mut block);
    assert_eq!(block.into_vec(), plain.to_vec());
}

#[test]
fn word_and_bit_granular_modes_select_differently() {
    // The two strategies are exercised by the same engine; with the same
    // key and index they generally pick different keystreams.
    let mut key_bytes = [0u8; 64];
    for i in 0..64 {
        key_bytes[i] = (i as u8).wrapping_mul(37).wrapping_add(5);
    }
    let key = Key::new(key_bytes);

    let word_mode: GenericCipher<'_, encryption::alg1::SBoxHash32, u32, 64, 28> =
        GenericCipher::new(encryption::alg1::SBoxHash32, &key, 0);
    let bit_mode: GenericCipher<'_, encryption::alg1::SBoxHash32, u32, 64, 28> =
        GenericCipher::with_mode(
            encryption::alg1::SBoxHash32,
            &key,
            0,
            WindowMode::BitGranular,
        );

    let mut a: CipherBlockRef<28, 4> = CipherBlockRef::new(vec![0u8; 28]);
    word_mode.cipher_block::<7, 4, u32>(2, &mut a);
    let mut b: CipherBlockRef<28, 4> = CipherBlockRef::new(vec![0u8; 28]);
    bit_mode.cipher_block::<7, 4, u32>(2, &mut b);
    assert_ne!(a.into_vec(), b.into_vec());
}
