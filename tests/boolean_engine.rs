use tfhe::boolean::{
    Bootstrapper, BooleanParameters, Ciphertext, KeyDecodingError, Memory,
    SerializableServerKey, ServerKey, PLAINTEXT_TRUE,
};
use tfhe::core_crypto::lwe::{decrypt_lwe, CiphertextModulus, LweCiphertext};

// Small lattice dimensions keep these tests fast; they are far from secure.
fn params() -> BooleanParameters {
    BooleanParameters {
        lwe_dimension: 8,
        glwe_dimension: 1,
        log_polynomial_size: 9,
        lwe_noise_bound_log: 0,
        glwe_noise_bound_log: 0,
        pbs_base_log: 20,
        pbs_level: 2,
        ks_base_log: 4,
        ks_level: 8,
    }
}

#[test]
fn as_buffers_prepares_the_true_accumulator() {
    let mut b = Bootstrapper::new(1, 2);
    let cks = b.new_client_key(params()).unwrap();
    let sks = b.new_server_key(&cks).unwrap();
    let mut memory = Memory::new();
    let (acc, lwe) = memory.as_buffers(&sks);
    assert_eq!(acc, 2 * 512);
    assert_eq!(lwe, 513);
    assert_eq!(memory.buffer.len(), acc + lwe);
    assert!(memory.buffer[..512].iter().all(|&w| w == 0));
    assert!(memory.buffer[512..1024].iter().all(|&w| w == PLAINTEXT_TRUE));
    // A second call keeps the buffer size.
    memory.buffer.push(7);
    let _ = memory.as_buffers(&sks);
    assert_eq!(memory.buffer.len(), acc + lwe + 1);
}

#[test]
fn bootstrap_refreshes_by_sign() {
    let mut b = Bootstrapper::new(3, 4);
    let cks = b.new_client_key(params()).unwrap();
    let sks = b.new_server_key(&cks).unwrap();
    let big = cks.glwe_secret_key.as_lwe_secret_key();
    let native = CiphertextModulus::new_native();
    let positive = LweCiphertext::new_trivial(PLAINTEXT_TRUE, 9, native);
    let out = b.bootstrap(&positive, &sks).unwrap();
    assert_eq!(out.data.len(), 513);
    let phase = decrypt_lwe(&big, &out);
    assert!(phase.wrapping_sub(PLAINTEXT_TRUE) < (1 << 50) || PLAINTEXT_TRUE.wrapping_sub(phase) < (1 << 50));
    let negative = LweCiphertext::new_trivial(PLAINTEXT_TRUE.wrapping_neg(), 9, native);
    let out = b.bootstrap(&negative, &sks).unwrap();
    let phase = decrypt_lwe(&big, &out);
    let minus_true = PLAINTEXT_TRUE.wrapping_neg();
    assert!(phase.wrapping_sub(minus_true) < (1 << 50) || minus_true.wrapping_sub(phase) < (1 << 50));
}

#[test]
fn bootstrap_keyswitch_returns_a_small_sample() {
    let mut b = Bootstrapper::new(5, 6);
    let cks = b.new_client_key(params()).unwrap();
    let sks = b.new_server_key(&cks).unwrap();
    let input = LweCiphertext::new_trivial(PLAINTEXT_TRUE, 9, CiphertextModulus::new_native());
    match b.bootstrap_keyswitch(input, &sks).unwrap() {
        Ciphertext::Encrypted(ct) => {
            assert_eq!(ct.data.len(), 9);
            let phase = decrypt_lwe(&cks.lwe_secret_key, &ct);
            assert!(phase.wrapping_sub(PLAINTEXT_TRUE) < (1 << 56) || PLAINTEXT_TRUE.wrapping_sub(phase) < (1 << 56));
        }
        Ciphertext::Trivial(_) => panic!("expected an encrypted sample"),
    }
    let big_input = LweCiphertext::new_trivial(PLAINTEXT_TRUE, 513, CiphertextModulus::new_native());
    let small = b.keyswitch(&big_input, &sks).unwrap();
    assert_eq!(small.data.len(), 9);
    assert_eq!(decrypt_lwe(&cks.lwe_secret_key, &small), PLAINTEXT_TRUE);
}

#[test]
fn server_key_serialization_round_trip() {
    let mut b = Bootstrapper::new(7, 8);
    let cks = b.new_client_key(params()).unwrap();
    let sks = b.new_server_key(&cks).unwrap();
    let blobs = sks.serialize();
    assert_eq!(&blobs.bootstrapping_key[..8], &(8 * 2 * 2 * 2 * 512 + 5u64).to_le_bytes()[..]);
    let back = ServerKey::deserialize(&blobs).unwrap();
    assert_eq!(back.serialize(), blobs);
    let input = LweCiphertext::new_trivial(PLAINTEXT_TRUE, 9, CiphertextModulus::new_native());
    let a = b.bootstrap(&input, &sks).unwrap();
    let c = b.bootstrap(&input, &back).unwrap();
    assert_eq!(a, c);
    let a = b.keyswitch(&a, &sks).unwrap();
    let c = b.keyswitch(&c, &back).unwrap();
    assert_eq!(a, c);
}

#[test]
fn deserialize_rejects_bad_input() {
    let mut b = Bootstrapper::new(9, 10);
    let cks = b.new_client_key(params()).unwrap();
    let sks = b.new_server_key(&cks).unwrap();
    let blobs = sks.serialize();
    let mut truncated = blobs.clone();
    truncated.bootstrapping_key.truncate(100);
    assert_eq!(ServerKey::deserialize(&truncated).err(), Some(KeyDecodingError::Truncated));
    let swapped = SerializableServerKey {
        bootstrapping_key: blobs.key_switching_key.clone(),
        key_switching_key: blobs.bootstrapping_key.clone(),
    };
    assert_eq!(ServerKey::deserialize(&swapped).err(), Some(KeyDecodingError::InvalidShape));
    let empty = SerializableServerKey { bootstrapping_key: vec![], key_switching_key: vec![] };
    assert_eq!(ServerKey::deserialize(&empty).err(), Some(KeyDecodingError::Truncated));
}

#[test]
fn refresh_is_deterministic_and_composes() {
    let mut b1 = Bootstrapper::new(11, 12);
    let cks = b1.new_client_key(params()).unwrap();
    let sks = b1.new_server_key(&cks).unwrap();
    assert!(sks.is_well_formed());
    let mut b2 = Bootstrapper::new(13, 14);
    let input = LweCiphertext::new_trivial(PLAINTEXT_TRUE.wrapping_neg(), 9, CiphertextModulus::new_native());
    // A first refresh leaves b1's scratch memory in another state.
    let _ = b1.bootstrap(&LweCiphertext::new_trivial(7, 9, CiphertextModulus::new_native()), &sks).unwrap();
    let x = b1.bootstrap(&input, &sks).unwrap();
    let y = b2.bootstrap(&input, &sks).unwrap();
    assert_eq!(x, y);
    let ks = b1.keyswitch(&x, &sks).unwrap();
    match b2.bootstrap_keyswitch(input.clone(), &sks).unwrap() {
        Ciphertext::Encrypted(ct) => assert_eq!(ct, ks),
        Ciphertext::Trivial(_) => panic!("expected an encrypted sample"),
    }
}

#[test]
fn malformed_key_is_reported() {
    let mut b = Bootstrapper::new(15, 16);
    let cks = b.new_client_key(params()).unwrap();
    let mut sks = b.new_server_key(&cks).unwrap();
    sks.key_switching_key.data.pop();
    assert!(!sks.is_well_formed());
}
