use tfhe::core_crypto::lwe::{CiphertextModulus, CiphertextModulusError};
use tfhe::shortint::ciphertext::{
    CarryModulus, CiphertextConformanceParams, Degree, MessageModulus, NoiseLevel, PBSOrder,
};
use tfhe::shortint::client_key::ClientKey;
use tfhe::shortint::engine::ShortintEngine;
use tfhe::shortint::parameters::ClassicPBSParameters;
use tfhe::shortint::server_key::ServerKey;

// Small lattice dimensions keep these tests fast; they are far from secure.
fn params_2_2() -> ClassicPBSParameters {
    ClassicPBSParameters {
        lwe_dimension: 8,
        glwe_dimension: 1,
        log_polynomial_size: 9,
        lwe_noise_bound_log: 0,
        glwe_noise_bound_log: 0,
        pbs_base_log: 20,
        pbs_level: 2,
        ks_base_log: 4,
        ks_level: 8,
        message_modulus: MessageModulus(4),
        carry_modulus: CarryModulus(4),
        max_noise_level: 5,
        ciphertext_modulus: CiphertextModulus::new_native(),
        pbs_order: PBSOrder::KeyswitchBootstrap,
    }
}

fn keys(seed: u128) -> (ShortintEngine, ClientKey, ServerKey) {
    let mut engine = ShortintEngine::new(seed, seed + 1);
    let ck = engine.new_client_key(params_2_2()).unwrap();
    let sk = engine.new_server_key(&ck).unwrap();
    (engine, ck, sk)
}

#[test]
fn unchecked_scalar_add_updates_degree_and_keeps_noise() {
    let (mut engine, ck, sk) = keys(100);
    let ct = engine.encrypt(&ck, 1).unwrap();
    assert_eq!(ct.degree, Degree(3));
    let r = engine.unchecked_scalar_add(&sk, &ct, 2).unwrap();
    assert_eq!(r.degree, Degree(5));
    assert_eq!(r.noise_level, ct.noise_level);
    assert_eq!(ck.decrypt(&r), 3);
    // The body moved by 2 * delta, delta = 2^63 / 16.
    let last = ct.ct.data.len() - 1;
    assert_eq!(r.ct.data[last], ct.ct.data[last].wrapping_add(2 * (1u64 << 59)));
    assert_eq!(r.ct.data[..last], ct.ct.data[..last]);
}

#[test]
fn degree_bounds_match_brute_force() {
    for a in 0..20usize {
        for b in 0..20usize {
            let xor = Degree(a).after_bitxor(Degree(b)).0;
            let or = Degree(a).after_bitor(Degree(b)).0;
            let and = Degree(a).after_bitand(Degree(b)).0;
            assert!(and <= a.min(b));
            assert!(xor >= a.max(b));
            assert!(or >= a.max(b));
            for x in 0..=a {
                for y in 0..=b {
                    assert!(x ^ y <= xor, "xor {} {} {} {}", a, b, x, y);
                    assert!(x | y <= or, "or {} {} {} {}", a, b, x, y);
                    assert!(x & y <= and);
                }
            }
        }
    }
}

#[test]
fn degree_bounds_exact_values() {
    assert_eq!(Degree(3).after_bitxor(Degree(1)), Degree(3));
    assert_eq!(Degree(4).after_bitxor(Degree(3)), Degree(7));
    assert_eq!(Degree(4).after_bitor(Degree(3)), Degree(7));
    assert_eq!(Degree(8).after_bitor(Degree(1)), Degree(9));
    assert_eq!(Degree(6).after_bitand(Degree(5)), Degree(5));
    // 0, 2, 4 -> 0, 6 -> 2: the largest value after wrapping is 2 for a bound of 3.
    assert_eq!(Degree(3).after_left_shift(1, 4), Degree(2));
    assert_eq!(Degree(3).after_left_shift(2, 16), Degree(12));
    assert_eq!(Degree(0).after_left_shift(5, 7), Degree(0));
    assert_eq!(Degree(4).after_pbs(|x| (x * 3) % 7), Degree(6));
    assert_eq!(Degree(0).after_pbs(|x| x + 9), Degree(9));
}

#[test]
fn bootstrap_keeps_every_message() {
    let (mut engine, ck, sk) = keys(200);
    let acc = sk.generate_lookup_table(|x| x);
    for m in 0..4u64 {
        let ct = engine.encrypt(&ck, m).unwrap();
        let refreshed = sk.apply_lookup_table(&ct, &acc);
        assert_eq!(refreshed.noise_level, NoiseLevel::nominal());
        assert_eq!(ck.decrypt(&refreshed), m);
        assert_eq!(ck.decrypt(&ct), m);
    }
}

#[test]
fn lookup_table_applies_the_function() {
    let (mut engine, ck, sk) = keys(250);
    let acc = sk.generate_lookup_table(|x| (x * x) % 4);
    assert_eq!(acc.degree, Degree(1));
    let ct = engine.encrypt(&ck, 3).unwrap();
    let r = sk.apply_lookup_table(&ct, &acc);
    assert_eq!(ck.decrypt(&r), 1);
    assert_eq!(r.degree, Degree(1));
}

#[test]
fn decompress_round_trip() {
    let (mut engine, ck, _sk) = keys(300);
    for m in 0..4u64 {
        let c = engine.encrypt_compressed(&ck, m, 77 + m as u128).unwrap();
        let d = c.decompress();
        assert_eq!(d.degree, c.degree);
        assert_eq!(d.noise_level, c.noise_level);
        assert_eq!(d.message_modulus, c.message_modulus);
        assert_eq!(d.carry_modulus, c.carry_modulus);
        assert_eq!(d.pbs_order, c.pbs_order);
        assert_eq!(ck.decrypt(&d), m);
    }
}

#[test]
fn decompress_regenerates_the_same_mask() {
    let (mut engine, ck, _sk) = keys(310);
    let c = engine.encrypt_compressed(&ck, 1, 5).unwrap();
    let d1 = c.decompress();
    let d2 = c.decompress();
    assert_eq!(d1, d2);
    let other = engine.encrypt_compressed(&ck, 1, 6).unwrap().decompress();
    let last = d1.ct.data.len() - 1;
    assert_ne!(d1.ct.data[..last], other.ct.data[..last]);
    assert!(d1.ct.data[..last].iter().any(|&w| w != 0));
}

#[test]
fn compact_list_expands_to_each_message() {
    let (mut engine, ck, _sk) = keys(400);
    let messages: Vec<u64> = (0..600u64).map(|i| i % 4).collect();
    let list = engine.encrypt_compact(&ck, &messages).unwrap();
    let expanded = list.expand();
    assert_eq!(expanded.len(), messages.len());
    for (ct, &m) in expanded.iter().zip(messages.iter()) {
        assert_eq!(ck.decrypt(ct), m);
        assert_eq!(ct.degree, list.degree);
        assert_eq!(ct.noise_level, list.noise_level);
    }
    // 600 samples need two bins of 512 masks.
    assert_eq!(list.size_elements(), 1024 + 600);
    assert_eq!(list.size_bytes(), 8 * (1024 + 600));
}

#[test]
fn compact_list_of_nothing_expands_to_nothing() {
    let (mut engine, ck, _sk) = keys(410);
    let list = engine.encrypt_compact(&ck, &Vec::new()).unwrap();
    assert_eq!(list.expand().len(), 0);
    assert_eq!(list.size_elements(), 0);
}

#[test]
fn noise_propagation_table() {
    let (mut engine, ck, sk) = keys(500);
    let x = engine.encrypt(&ck, 0).unwrap();
    let y = engine.encrypt(&ck, 0).unwrap();
    assert_eq!(x.noise_level, NoiseLevel::nominal());
    let sum = sk.unchecked_add(&x, &y);
    assert_eq!(sum.noise_level, NoiseLevel::nominal() + NoiseLevel::nominal());
    let acc = sk.generate_lookup_table(|_| 0);
    assert_eq!(sk.apply_lookup_table(&x, &acc).noise_level, NoiseLevel::nominal());
    let prod = sk.unchecked_mul_lsb(&x, &y);
    assert_eq!(prod.noise_level, NoiseLevel::nominal());
    let trivial = sk.create_trivial(0);
    assert_eq!(trivial.degree, Degree(0));
    assert_eq!(trivial.noise_level, NoiseLevel::zero());
    let by_trivial = sk.unchecked_mul_lsb(&x, &trivial);
    assert_eq!(by_trivial.noise_level, NoiseLevel::zero());
    let scaled = sk.unchecked_scalar_mul(&x, 3);
    assert_eq!(scaled.noise_level, NoiseLevel::nominal() * 3);
}

#[test]
fn multiplication_keeps_the_low_part() {
    let (mut engine, ck, sk) = keys(510);
    let a = engine.encrypt(&ck, 3).unwrap();
    let b = engine.encrypt(&ck, 2).unwrap();
    // Degrees 3 and 3 pack as a * 4 + b < 16.
    let p = sk.unchecked_mul_lsb(&a, &b);
    assert_eq!(ck.decrypt(&p), 2);
}

#[test]
fn smart_scalar_add_refreshes_once_on_overflow() {
    let (mut engine, ck, sk) = keys(600);
    for m in 0..4u64 {
        let mut ct = engine.unchecked_encrypt(&ck, m).unwrap();
        assert_eq!(ct.degree, Degree(15));
        assert!(!sk.is_scalar_add_possible(&ct, 3));
        let r = engine.smart_scalar_add(&sk, &mut ct, 3).unwrap();
        assert_eq!(r.degree, Degree(3));
        assert_eq!(r.noise_level, NoiseLevel::nominal());
        assert_eq!(ck.decrypt_message_and_carry(&r), (m + 3) % 4);
    }
}

#[test]
fn smart_scalar_add_direct_path() {
    let (mut engine, ck, sk) = keys(610);
    let mut ct = engine.encrypt(&ck, 2).unwrap();
    assert!(sk.is_scalar_add_possible(&ct, 1));
    let r = engine.smart_scalar_add(&sk, &mut ct, 1).unwrap();
    assert_eq!(r.degree, Degree(4));
    assert_eq!(r.noise_level, ct.noise_level);
    assert_eq!(ck.decrypt(&r), 3);
    let mut ct2 = engine.encrypt(&ck, 2).unwrap();
    engine.smart_scalar_add_assign(&sk, &mut ct2, 1).unwrap();
    assert_eq!(ck.decrypt(&ct2), 3);
}

#[test]
fn scalar_add_at_the_largest_degree() {
    let (mut engine, ck, sk) = keys(620);
    let ct = engine.encrypt(&ck, 3).unwrap();
    // 3 + 12 = 15 is the largest degree that needs no refresh.
    assert!(sk.is_scalar_add_possible(&ct, 12));
    assert!(!sk.is_scalar_add_possible(&ct, 13));
    let r = engine.unchecked_scalar_add(&sk, &ct, 12).unwrap();
    assert_eq!(ck.decrypt_message_and_carry(&r), 15);
}

#[test]
fn trivial_encryption_decrypts() {
    let (_engine, ck, sk) = keys(700);
    let t = sk.create_trivial(6);
    assert_eq!(t.degree, Degree(2));
    assert_eq!(ck.decrypt(&t), 2);
    assert!(t.carry_is_empty());
}

#[test]
fn modulus_errors() {
    assert_eq!(CiphertextModulus::try_new_power_of_2(0), Err(CiphertextModulusError::Trivial));
    assert_eq!(CiphertextModulus::try_new_power_of_2(65), Err(CiphertextModulusError::TooLarge));
    assert_eq!(
        CiphertextModulus::try_new_power_of_2(64).unwrap(),
        CiphertextModulus::new_native()
    );
}

#[test]
fn conformance_checks_every_field() {
    let (mut engine, ck, _sk) = keys(800);
    let ct = engine.encrypt(&ck, 1).unwrap();
    let good = CiphertextConformanceParams {
        lwe_size: 513,
        ciphertext_modulus: CiphertextModulus::new_native(),
        message_modulus: MessageModulus(4),
        carry_modulus: CarryModulus(4),
        pbs_order: PBSOrder::KeyswitchBootstrap,
        degree: Degree(3),
        noise_level: NoiseLevel::nominal(),
    };
    assert!(ct.is_conformant(&good));
    assert!(!ct.is_conformant(&CiphertextConformanceParams { lwe_size: 9, ..good }));
    assert!(!ct.is_conformant(&CiphertextConformanceParams { degree: Degree(2), ..good }));
    assert!(!ct.is_conformant(&CiphertextConformanceParams {
        pbs_order: PBSOrder::BootstrapKeyswitch,
        ..good
    }));
}
