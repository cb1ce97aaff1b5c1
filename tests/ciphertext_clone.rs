use tfhe::core_crypto::lwe::{CiphertextModulus, LweCiphertextOwned};
use tfhe::shortint::ciphertext::{
    CarryModulus, Ciphertext, Degree, MessageModulus, NoiseLevel, PBSOrder,
};

#[test]
fn test_clone_from_same_lwe_size_and_modulus() {
    let mut c1 = Ciphertext {
        ct: LweCiphertextOwned::from_container(vec![1u64; 256], CiphertextModulus::new_native()),
        degree: Degree(1),
        message_modulus: MessageModulus(1),
        carry_modulus: CarryModulus(1),
        pbs_order: PBSOrder::KeyswitchBootstrap,
        noise_level: NoiseLevel::nominal(),
    };

    let c2 = Ciphertext {
        ct: LweCiphertextOwned::from_container(
            vec![2323858949u64; 256],
            CiphertextModulus::new_native(),
        ),
        degree: Degree(42),
        message_modulus: MessageModulus(2),
        carry_modulus: CarryModulus(2),
        pbs_order: PBSOrder::BootstrapKeyswitch,
        noise_level: NoiseLevel::nominal(),
    };

    assert_ne!(c1, c2);

    c1.clone_from(&c2);
    assert_eq!(c1, c2);
}

#[test]
fn test_clone_from_same_lwe_size_different_modulus() {
    let mut c1 = Ciphertext {
        ct: LweCiphertextOwned::from_container(
            vec![1u64; 256],
            CiphertextModulus::try_new_power_of_2(32).unwrap(),
        ),
        degree: Degree(1),
        message_modulus: MessageModulus(1),
        carry_modulus: CarryModulus(1),
        pbs_order: PBSOrder::KeyswitchBootstrap,
        noise_level: NoiseLevel::nominal(),
    };

    let c2 = Ciphertext {
        ct: LweCiphertextOwned::from_container(
            vec![2323858949u64; 256],
            CiphertextModulus::new_native(),
        ),
        degree: Degree(42),
        message_modulus: MessageModulus(2),
        carry_modulus: CarryModulus(2),
        pbs_order: PBSOrder::BootstrapKeyswitch,
        noise_level: NoiseLevel::nominal(),
    };

    assert_ne!(c1, c2);

    c1.clone_from(&c2);
    assert_eq!(c1, c2);
}

#[test]
fn test_clone_from_different_lwe_size_same_modulus() {
    let mut c1 = Ciphertext {
        ct: LweCiphertextOwned::from_container(vec![1u64; 512], CiphertextModulus::new_native()),
        degree: Degree(1),
        message_modulus: MessageModulus(1),
        carry_modulus: CarryModulus(1),
        pbs_order: PBSOrder::KeyswitchBootstrap,
        noise_level: NoiseLevel::nominal(),
    };

    let c2 = Ciphertext {
        ct: LweCiphertextOwned::from_container(
            vec![2323858949u64; 256],
            CiphertextModulus::new_native(),
        ),
        degree: Degree(42),
        message_modulus: MessageModulus(2),
        carry_modulus: CarryModulus(2),
        pbs_order: PBSOrder::BootstrapKeyswitch,
        noise_level: NoiseLevel::nominal(),
    };

    assert_ne!(c1, c2);

    c1.clone_from(&c2);
    assert_eq!(c1, c2);
}
