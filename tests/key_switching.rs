use tfhe::core_crypto::lwe::CiphertextModulus;
use tfhe::shortint::ciphertext::{CarryModulus, MessageModulus, PBSOrder};
use tfhe::shortint::client_key::ClientKey;
use tfhe::shortint::engine::ShortintEngine;
use tfhe::shortint::key_switching_key::{KeySwitchingKey, ShortintKeySwitchingParameters};
use tfhe::shortint::parameters::ClassicPBSParameters;
use tfhe::shortint::server_key::ServerKey;

// Small lattice dimensions keep these tests fast; they are far from secure.
fn test_params(message_modulus: usize, carry_modulus: usize) -> ClassicPBSParameters {
    ClassicPBSParameters {
        lwe_dimension: 8,
        glwe_dimension: 1,
        log_polynomial_size: 9,
        lwe_noise_bound_log: 0,
        glwe_noise_bound_log: 0,
        pbs_base_log: 20,
        pbs_level: 2,
        ks_base_log: 4,
        ks_level: 8,
        message_modulus: MessageModulus(message_modulus),
        carry_modulus: CarryModulus(carry_modulus),
        max_noise_level: 5,
        ciphertext_modulus: CiphertextModulus::new_native(),
        pbs_order: PBSOrder::KeyswitchBootstrap,
    }
}

const PARAM_KEYSWITCH_1_1_KS_PBS_TO_2_2_KS_PBS: ShortintKeySwitchingParameters =
    ShortintKeySwitchingParameters { ks_base_log: 4, ks_level: 8 };

struct Keys {
    ck1: ClientKey,
    ck2: ClientKey,
    ksk: KeySwitchingKey,
}

fn keys_for(
    engine: &mut ShortintEngine,
    first: ClassicPBSParameters,
    second: ClassicPBSParameters,
    ks: ShortintKeySwitchingParameters,
) -> Keys {
    let ck1 = engine.new_client_key(first).unwrap();
    let sk1: ServerKey = engine.new_server_key(&ck1).unwrap();
    let ck2 = engine.new_client_key(second).unwrap();
    let sk2: ServerKey = engine.new_server_key(&ck2).unwrap();
    let ksk = engine.new_key_switching_key((&ck1, sk1), (&ck2, sk2), ks).unwrap();
    Keys { ck1, ck2, ksk }
}

#[test]
fn gen_multi_keys_test_add_with_overflow() {
    let mut engine = ShortintEngine::new(31, 32);
    let keys = keys_for(
        &mut engine,
        test_params(2, 2),
        test_params(8, 8),
        PARAM_KEYSWITCH_1_1_KS_PBS_TO_2_2_KS_PBS,
    );
    let (ck1, ck2, ksk) = (&keys.ck1, &keys.ck2, &keys.ksk);
    let sk1 = &ksk.src_server_key;

    // voluntary overflow
    let c1 = engine.encrypt(ck1, 1).unwrap();
    let c2 = engine.encrypt(ck1, 1).unwrap();

    let c3 = sk1.unchecked_scalar_mul(&c1, 2);
    let c4 = sk1.unchecked_add(&c3, &c2);

    let output_of_cast = ksk.cast(&c4);
    let clear = ck2.decrypt_decode_padding(&output_of_cast);
    assert_eq!(clear.msg, 3);
    assert_eq!(clear.carry, 0);
}

#[test]
fn gen_multi_keys_test_no_shift() {
    let mut engine = ShortintEngine::new(41, 42);
    let second = test_params(2, 2);
    let ksk_params = ShortintKeySwitchingParameters::new(second.ks_base_log, second.ks_level);
    let keys = keys_for(&mut engine, test_params(2, 2), second, ksk_params);
    let ksk = &keys.ksk;

    assert_eq!(ksk.cast_rshift, 0);
}

#[test]
fn gen_multi_keys_test_truncate() {
    let mut engine = ShortintEngine::new(51, 52);
    let second = test_params(2, 2);
    let ksk_params = ShortintKeySwitchingParameters::new(second.ks_base_log, second.ks_level);
    let keys = keys_for(&mut engine, test_params(4, 4), second, ksk_params);
    let (ck1, ck2, ksk) = (&keys.ck1, &keys.ck2, &keys.ksk);

    assert_eq!(ksk.cast_rshift, -2);

    // Message 0 Carry 0
    let cipher = engine.unchecked_encrypt(ck1, 0).unwrap();
    let output_of_cast = ksk.cast(&cipher);
    let clear = ck2.decrypt_decode_padding(&output_of_cast);
    assert_eq!(clear.msg, 0);
    assert_eq!(clear.carry, 0);

    // Message 1 Carry 0
    let cipher = engine.unchecked_encrypt(ck1, 1).unwrap();
    let output_of_cast = ksk.cast(&cipher);
    let clear = ck2.decrypt_decode_padding(&output_of_cast);
    assert_eq!(clear.msg, 1);
    assert_eq!(clear.carry, 0);

    // Message 0 Carry 1
    let cipher = engine.unchecked_encrypt(ck1, 2).unwrap();
    let output_of_cast = ksk.cast(&cipher);
    let clear = ck2.decrypt_decode_padding(&output_of_cast);
    assert_eq!(clear.msg, 0);
    assert_eq!(clear.carry, 1);

    // Message 1 Carry 1
    let cipher = engine.unchecked_encrypt(ck1, 3).unwrap();
    let output_of_cast = ksk.cast(&cipher);
    let clear = ck2.decrypt_decode_padding(&output_of_cast);
    assert_eq!(clear.msg, 1);
    assert_eq!(clear.carry, 1);

    // Actual truncation
    let cipher = engine.unchecked_encrypt(ck1, 12).unwrap();
    let clear = ck1.decrypt_decode_padding(&cipher);
    assert_eq!((clear.msg, clear.carry), (0, 3));

    let output_of_cast = ksk.cast(&cipher);
    let clear = ck2.decrypt_decode_padding(&output_of_cast);
    assert_eq!(clear.msg, 0);
    assert_eq!(clear.carry, 0);
}
