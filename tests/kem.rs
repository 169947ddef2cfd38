use kyber_rust::{
    decapsulate, encaps_derand, encapsulate, generate_keypair, keypair_derand, KemError,
    CRYPTO_BYTES, CRYPTO_CIPHERTEXTBYTES, CRYPTO_PUBLICKEYBYTES, CRYPTO_SECRETKEYBYTES,
};
use sha3::Digest;

fn sha3_hex(data: &[u8]) -> String {
    let d = sha3::Sha3_256::digest(data);
    let mut s = String::new();
    for b in d.iter() {
        s.push_str(&format!("{:02x}", b));
    }
    s
}

fn fixed_seed() -> Vec<u8> {
    (0u8..64).collect()
}

fn fixed_coins() -> Vec<u8> {
    (100u8..132).collect()
}

#[test]
fn test_generate_keypair() {
    let (pk, sk) = generate_keypair().unwrap();
    assert_eq!(pk.len(), CRYPTO_PUBLICKEYBYTES);
    assert_eq!(sk.len(), CRYPTO_SECRETKEYBYTES);
}

#[test]
fn test_encapsulate() {
    let (pk, _) = generate_keypair().unwrap();
    let (ct, ss) = encapsulate(&pk).unwrap();
    assert_eq!(ct.len(), CRYPTO_CIPHERTEXTBYTES);
    assert_eq!(ss.len(), CRYPTO_BYTES);
}

#[test]
fn test_decapsulate() {
    let (pk, sk) = generate_keypair().unwrap();
    let (ct, ss_enc) = encapsulate(&pk).unwrap();
    let ss_dec = decapsulate(&ct, &sk).unwrap();
    assert_eq!(ss_enc, ss_dec);
}

#[test]
fn test_invalid_decapsulation() {
    let (pk1, _sk1) = generate_keypair().unwrap();
    let (_, sk2) = generate_keypair().unwrap();
    let (ct, ss_enc) = encapsulate(&pk1).unwrap();

    // Decapsulating with the wrong secret key gives another secret.
    let ss_dec = decapsulate(&ct, &sk2).unwrap();

    assert_ne!(ss_enc, ss_dec);
}

#[test]
fn test_multiple_encapsulations() {
    let (pk, sk) = generate_keypair().unwrap();

    for _ in 0..10 {
        let (ct, ss_enc) = encapsulate(&pk).unwrap();
        let ss_dec = decapsulate(&ct, &sk).unwrap();
        assert_eq!(ss_enc, ss_dec);
    }
}

#[test]
fn known_answer_fixed_seeds() {
    let (pk, sk) = keypair_derand(&fixed_seed());
    let (ct, ss) = encaps_derand(&pk, &fixed_coins());
    assert_eq!(pk[..8].to_vec(), vec![236u8, 88, 163, 184, 8, 17, 97, 185]);
    assert_eq!(sha3_hex(&pk), "0df97a95f3e9fcaa29e04ffc0b246f17b50a19e74c90f88dadc41837dddcb6d1");
    assert_eq!(sha3_hex(&sk), "157699f1afdbe4acff52ab00e6ef075bb6c267280d4c1e24fd907b43c9bf0ce5");
    assert_eq!(ct[..8].to_vec(), vec![58u8, 155, 206, 14, 72, 250, 38, 85]);
    assert_eq!(sha3_hex(&ct), "2a070e2bd74412f5514e504672f43bdd90b3da32e95cd2a46f928b77b66b841c");
    assert_eq!(
        ss,
        vec![
            121u8, 221, 74, 220, 4, 69, 31, 37, 113, 238, 149, 43, 254, 78, 144, 60, 238, 64, 189,
            174, 83, 109, 162, 97, 48, 200, 132, 167, 109, 193, 243, 202
        ]
    );
    assert_eq!(decapsulate(&ct, &sk).unwrap(), ss);
}

#[test]
fn fixed_seeds_are_deterministic() {
    let (pk1, sk1) = keypair_derand(&fixed_seed());
    let (pk2, sk2) = keypair_derand(&fixed_seed());
    assert_eq!(pk1, pk2);
    assert_eq!(sk1, sk2);
    let (ct1, ss1) = encaps_derand(&pk1, &fixed_coins());
    let (ct2, ss2) = encaps_derand(&pk1, &fixed_coins());
    assert_eq!(ct1, ct2);
    assert_eq!(ss1, ss2);
}

#[test]
fn secret_key_layout() {
    let seed = fixed_seed();
    let (pk, sk) = keypair_derand(&seed);
    assert_eq!(sk[1152..2336].to_vec(), pk);
    assert_eq!(sk[2368..2400].to_vec(), seed[32..64].to_vec());
    assert_eq!(sk[2336..2368].to_vec(), sha3::Sha3_256::digest(&pk).to_vec());
}

#[test]
fn implicit_rejection_is_deterministic() {
    let (pk, sk) = keypair_derand(&fixed_seed());
    let (ct, ss) = encaps_derand(&pk, &fixed_coins());
    let mut bad = ct.clone();
    bad[0] ^= 1;
    let r1 = decapsulate(&bad, &sk).unwrap();
    let r2 = decapsulate(&bad, &sk).unwrap();
    assert_eq!(r1, r2);
    assert_ne!(r1, ss);
    assert_eq!(
        r1,
        vec![
            213u8, 149, 11, 34, 156, 54, 188, 203, 1, 1, 226, 62, 86, 222, 29, 45, 211, 214, 74,
            105, 65, 8, 82, 14, 211, 117, 139, 71, 107, 132, 56, 75
        ]
    );
}

#[test]
fn rejection_key_depends_on_ciphertext() {
    let (pk, sk) = keypair_derand(&fixed_seed());
    let (ct, _) = encaps_derand(&pk, &fixed_coins());
    let mut bad1 = ct.clone();
    bad1[0] ^= 1;
    let mut bad2 = ct.clone();
    bad2[1087] ^= 0x80;
    assert_ne!(decapsulate(&bad1, &sk).unwrap(), decapsulate(&bad2, &sk).unwrap());
}

#[test]
fn cross_key_divergence_fixed_seeds() {
    let (pk1, sk1) = keypair_derand(&fixed_seed());
    let other: Vec<u8> = (64u8..128).collect();
    let (_, sk2) = keypair_derand(&other);
    let (ct, ss) = encaps_derand(&pk1, &fixed_coins());
    assert_eq!(decapsulate(&ct, &sk1).unwrap(), ss);
    assert_ne!(decapsulate(&ct, &sk2).unwrap(), ss);
}

#[test]
fn public_key_length_is_enforced() {
    assert_eq!(encapsulate(&[0u8; 1183]), Err(KemError::InvalidPublicKeyLength));
    assert_eq!(encapsulate(&[0u8; 1185]), Err(KemError::InvalidPublicKeyLength));
    assert_eq!(encapsulate(&[]), Err(KemError::InvalidPublicKeyLength));
    assert!(encapsulate(&[0u8; 1184]).is_ok());
}

#[test]
fn ciphertext_length_is_enforced() {
    let sk = vec![0u8; CRYPTO_SECRETKEYBYTES];
    assert_eq!(decapsulate(&[0u8; 1087], &sk), Err(KemError::InvalidCiphertextLength));
    assert_eq!(decapsulate(&[0u8; 1089], &sk), Err(KemError::InvalidCiphertextLength));
    assert_eq!(decapsulate(&[0u8; 1087], &[0u8; 5]), Err(KemError::InvalidCiphertextLength));
}

#[test]
fn secret_key_length_is_enforced() {
    let ct = vec![0u8; CRYPTO_CIPHERTEXTBYTES];
    assert_eq!(decapsulate(&ct, &[0u8; 2399]), Err(KemError::InvalidSecretKeyLength));
    assert_eq!(decapsulate(&ct, &[0u8; 2401]), Err(KemError::InvalidSecretKeyLength));
}

#[test]
fn malformed_ciphertext_still_decapsulates() {
    let (_, sk) = keypair_derand(&fixed_seed());
    let ss = decapsulate(&[0xffu8; 1088], &sk).unwrap();
    assert_eq!(ss.len(), CRYPTO_BYTES);
    let again = decapsulate(&[0xffu8; 1088], &sk).unwrap();
    assert_eq!(ss, again);
}

#[test]
fn keypairs_and_ciphertexts_differ() {
    let (pk1, sk1) = generate_keypair().unwrap();
    let (pk2, sk2) = generate_keypair().unwrap();
    assert_ne!(pk1, pk2);
    assert_ne!(sk1, sk2);
    let (ct1, ss1) = encapsulate(&pk1).unwrap();
    let (ct2, ss2) = encapsulate(&pk1).unwrap();
    assert_ne!(ct1, ct2);
    assert_ne!(ss1, ss2);
}

#[test]
fn round_trip_many_fixed_seeds() {
    for i in 0u8..6 {
        let seed: Vec<u8> = (0u8..64).map(|b| b.wrapping_mul(7).wrapping_add(i)).collect();
        let coins: Vec<u8> = (0u8..32).map(|b| b ^ i).collect();
        let (pk, sk) = keypair_derand(&seed);
        let (ct, ss) = encaps_derand(&pk, &coins);
        assert_eq!(decapsulate(&ct, &sk).unwrap(), ss);
    }
}
