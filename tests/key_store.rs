use pumpkin_login::key_store::{auth_digest, BikeShedKeyStore, EncryptionError};
use rsa::traits::PublicKeyParts;
use rsa::{Pkcs1v15Encrypt, RsaPublicKey};
use sha1::{Digest, Sha1};

fn sha1_of(data: &[u8]) -> Vec<u8> {
    Sha1::digest(data).to_vec()
}

#[test]
fn auth_digest_matches_known_names() {
    assert_eq!(auth_digest(&sha1_of(b"Notch")), "4ed1f46bbe04bc756bcb17c0c7ce3e4632f06a48");
    assert_eq!(auth_digest(&sha1_of(b"jeb_")), "-7c9d5b0044c130109a5d7b5fb5c317c02b4e28c1");
    assert_eq!(auth_digest(&sha1_of(b"simon")), "88e16a1019277b15d58faf0541e11910eb756f6");
}

#[test]
fn auth_digest_is_signed_hex() {
    assert_eq!(auth_digest(&[]), "0");
    assert_eq!(auth_digest(&[0x00]), "0");
    assert_eq!(auth_digest(&[0xff]), "-1");
    assert_eq!(auth_digest(&[0x00, 0x10]), "10");
    assert_eq!(auth_digest(&[0x80, 0x00]), "-8000");
    assert_eq!(auth_digest(&[0x7f, 0xab]), "7fab");
}

#[test]
fn key_store_round_trips_secrets() {
    let store = BikeShedKeyStore::new().unwrap();
    let public = RsaPublicKey::from(&store.private_key);
    assert_eq!(public.n().bits(), 1024);
    let mut rng = rand::thread_rng();
    for len in [0usize, 16, 117] {
        let secret: Vec<u8> = (0..len).map(|i| (i * 7 + 3) as u8).collect();
        let encrypted = public.encrypt(&mut rng, Pkcs1v15Encrypt, &secret).unwrap();
        assert_eq!(store.decrypt(&encrypted).unwrap(), secret);
    }
    assert_eq!(store.decrypt(&[1, 2, 3]), Err(EncryptionError::FailedDecrypt));
    assert_eq!(store.decrypt(&vec![0u8; 128]), Err(EncryptionError::FailedDecrypt));

    let expected_der = rsa_der::public_key_to_der(&public.n().to_bytes_be(), &public.e().to_bytes_be());
    assert_eq!(store.public_key_der, expected_der);

    let request = store.encryption_request("", &[1, 2, 3, 4], true);
    assert_eq!(request.server_id, "");
    assert_eq!(request.public_key, expected_der);
    assert_eq!(request.verification_token, [1, 2, 3, 4]);
    assert!(request.should_authenticate);

    let secret = [9u8; 16];
    let digest = store.get_digest(&secret);
    assert_eq!(digest, store.get_digest(&secret));
    let mut input = secret.to_vec();
    input.extend_from_slice(&expected_der);
    assert_eq!(digest, auth_digest(&sha1_of(&input)));
    assert_ne!(digest, store.get_digest(&[8u8; 16]));
}
