use hmac::{Hmac, Mac};
use pumpkin_login::velocity::{
    check_integrity, read_game_profile, receive_velocity_plugin_response, velocity_login,
    velocity_login_request, VelocityError,
};
use pumpkin_login::wire::{read_optional_string, read_string, read_uuid, read_varint};
use sha2::Sha256;

const PORT: u16 = 25565;
const UUID: [u8; 16] = [
    0x06, 0x9a, 0x79, 0xf4, 0x44, 0xe9, 0x40, 0x26, 0xbf, 0x73, 0x86, 0x56, 0x55, 0x99, 0x36, 0x3b,
];

fn put_varint(out: &mut Vec<u8>, mut v: u32) {
    while v >= 0x80 {
        out.push((v as u8 & 0x7f) | 0x80);
        v >>= 7;
    }
    out.push(v as u8);
}

fn put_string(out: &mut Vec<u8>, s: &str) {
    put_varint(out, s.len() as u32);
    out.extend_from_slice(s.as_bytes());
}

fn sign(secret: &str, message: &[u8]) -> Vec<u8> {
    let mut mac = Hmac::<Sha256>::new_from_slice(secret.as_bytes()).unwrap();
    mac.update(message);
    mac.finalize().into_bytes().to_vec()
}

fn signed(secret: &str, message: &[u8]) -> Vec<u8> {
    let mut data = sign(secret, message);
    data.extend_from_slice(message);
    data
}

fn alice_message() -> Vec<u8> {
    let mut m = vec![4u8];
    put_string(&mut m, "127.0.0.1");
    m.extend_from_slice(&UUID);
    put_string(&mut m, "Alice");
    put_varint(&mut m, 0);
    m
}

#[test]
fn correct_secret_decodes_profile_and_address() {
    let message = alice_message();
    let signature = sign("test-secret", &message);
    assert!(check_integrity((&signature, &message), "test-secret"));
    let data = signed("test-secret", &message);
    let (profile, addr) =
        receive_velocity_plugin_response(PORT, "test-secret", Some(&data)).unwrap();
    assert_eq!(profile.name, "Alice");
    assert_eq!(profile.id, u128::from_be_bytes(UUID));
    assert!(profile.properties.is_empty());
    assert!(profile.profile_actions.is_none());
    assert_eq!(addr.ip, "127.0.0.1");
    assert_eq!(addr.port, PORT);
}

#[test]
fn wrong_secret_fails_integrity() {
    let message = alice_message();
    let signature = sign("wrong-secret", &message);
    assert!(!check_integrity((&signature, &message), "test-secret"));
    let data = signed("wrong-secret", &message);
    assert_eq!(
        receive_velocity_plugin_response(PORT, "test-secret", Some(&data)),
        Err(VelocityError::FailedVerifyIntegrity)
    );
}

#[test]
fn missing_data_is_no_data() {
    assert_eq!(
        receive_velocity_plugin_response(PORT, "test-secret", None),
        Err(VelocityError::NoData)
    );
}

#[test]
fn data_shorter_than_signature_is_refused() {
    assert_eq!(
        receive_velocity_plugin_response(PORT, "k", Some(&[])),
        Err(VelocityError::FailedReadSignature)
    );
    assert_eq!(
        receive_velocity_plugin_response(PORT, "k", Some(&[0u8; 31])),
        Err(VelocityError::FailedReadSignature)
    );
}

#[test]
fn flipped_bits_are_rejected() {
    let message = alice_message();
    let signature = sign("s3", &message);
    assert!(check_integrity((&signature, &message), "s3"));
    for i in [0usize, 17, 31] {
        let mut bad = signature.clone();
        bad[i] ^= 0x01;
        assert!(!check_integrity((&bad, &message), "s3"));
    }
    for i in [0usize, 5, message.len() - 1] {
        let mut bad = message.clone();
        bad[i] ^= 0x80;
        assert!(!check_integrity((&signature, &bad), "s3"));
    }
}

#[test]
fn long_and_empty_secrets_are_keys_too() {
    let message = alice_message();
    let long = "k".repeat(200);
    assert!(check_integrity((&sign(&long, &message), &message), &long));
    assert!(check_integrity((&sign("", &message), &message), ""));
    assert!(!check_integrity((&sign("", &message), &message), "x"));
}

#[test]
fn short_signature_is_rejected() {
    let message = alice_message();
    let signature = sign("s", &message);
    assert!(!check_integrity((&signature[..31], &message), "s"));
    let mut longer = signature.clone();
    longer.push(0);
    assert!(!check_integrity((&longer, &message), "s"));
}

#[test]
fn properties_round_trip_in_order() {
    let mut m = vec![2u8];
    put_string(&mut m, "::1");
    m.extend_from_slice(&UUID);
    put_string(&mut m, "Bob");
    put_varint(&mut m, 3);
    put_string(&mut m, "textures");
    put_string(&mut m, "value-a");
    m.push(1);
    put_string(&mut m, "sig-a");
    put_string(&mut m, "textures");
    put_string(&mut m, "");
    m.push(0);
    put_string(&mut m, "κλειδί");
    put_string(&mut m, "värde");
    m.push(1);
    put_string(&mut m, "");
    let data = signed("k", &m);
    let (profile, addr) = receive_velocity_plugin_response(7, "k", Some(&data)).unwrap();
    assert_eq!(addr.ip, "::1");
    assert_eq!(addr.port, 7);
    assert_eq!(profile.name, "Bob");
    let p = &profile.properties;
    assert_eq!(p.len(), 3);
    assert_eq!((p[0].name.as_str(), p[0].value.as_str()), ("textures", "value-a"));
    assert_eq!(p[0].signature.as_deref(), Some("sig-a"));
    assert_eq!((p[1].name.as_str(), p[1].value.as_str()), ("textures", ""));
    assert_eq!(p[1].signature, None);
    assert_eq!((p[2].name.as_str(), p[2].value.as_str()), ("κλειδί", "värde"));
    assert_eq!(p[2].signature.as_deref(), Some(""));
}

#[test]
fn version_five_is_unsupported() {
    let mut m = vec![5u8];
    put_string(&mut m, "127.0.0.1");
    let data = signed("k", &m);
    assert_eq!(
        receive_velocity_plugin_response(PORT, "k", Some(&data)),
        Err(VelocityError::UnsupportedForwardVersion(5, 4))
    );
    let mut garbage = vec![0x80u8, 0x02];
    garbage.extend_from_slice(&[0xff, 0xff]);
    let data = signed("k", &garbage);
    assert_eq!(
        receive_velocity_plugin_response(PORT, "k", Some(&data)),
        Err(VelocityError::UnsupportedForwardVersion(256, 4))
    );
}

#[test]
fn bad_signature_precedes_malformed_payload() {
    let mut data = vec![0u8; 32];
    data.extend_from_slice(&[0xff, 0xff, 0xff, 0xff, 0xff, 0xff]);
    assert_eq!(
        receive_velocity_plugin_response(PORT, "k", Some(&data)),
        Err(VelocityError::FailedVerifyIntegrity)
    );
    let only_signature = vec![0u8; 32];
    assert_eq!(
        receive_velocity_plugin_response(PORT, "k", Some(&only_signature)),
        Err(VelocityError::FailedVerifyIntegrity)
    );
}

#[test]
fn each_field_has_its_error() {
    let decode = |m: &[u8]| receive_velocity_plugin_response(PORT, "k", Some(&signed("k", m)));
    assert_eq!(decode(&[]), Err(VelocityError::FailedReadForwardVersion));
    assert_eq!(decode(&[0x80]), Err(VelocityError::FailedReadForwardVersion));
    assert_eq!(decode(&[4]), Err(VelocityError::FailedReadAddress));
    assert_eq!(decode(&[4, 2, 0xff, 0xfe]), Err(VelocityError::FailedReadAddress));
    let mut m = vec![4u8];
    put_string(&mut m, "10.0.0.1");
    assert_eq!(decode(&m), Err(VelocityError::FailedReadProfileUUID));
    m.extend_from_slice(&UUID);
    assert_eq!(decode(&m), Err(VelocityError::FailedReadProfileName));
    put_string(&mut m, "Carol");
    assert_eq!(decode(&m), Err(VelocityError::FailedReadProfileProperties));
    put_varint(&mut m, 1);
    put_string(&mut m, "n");
    put_string(&mut m, "v");
    assert_eq!(decode(&m), Err(VelocityError::FailedReadProfileProperties));
    m.push(0);
    assert!(decode(&m).is_ok());
}

#[test]
fn varints_read_seven_bits_per_byte() {
    assert_eq!(read_varint(&[0x00], 0), Some((0, 1)));
    assert_eq!(read_varint(&[0x7f], 0), Some((127, 1)));
    assert_eq!(read_varint(&[9, 0xac, 0x02], 1), Some((300, 3)));
    assert_eq!(read_varint(&[0xff, 0xff, 0xff, 0xff, 0x0f], 0), Some((u32::MAX, 5)));
    assert_eq!(read_varint(&[0xff, 0xff, 0xff, 0xff, 0x7f], 0), Some((u32::MAX, 5)));
    assert_eq!(read_varint(&[0x80, 0x80, 0x80, 0x80, 0x80, 0x01], 0), None);
    assert_eq!(read_varint(&[0x80], 0), None);
    assert_eq!(read_varint(&[1], 1), None);
}

#[test]
fn strings_uuids_and_options_read() {
    let mut m = Vec::new();
    put_string(&mut m, "Alice");
    assert_eq!(read_string(&m, 0), Some((String::from("Alice"), 6)));
    assert_eq!(read_string(&m[..5], 0), None);
    assert_eq!(read_string(&[1, 0xc3], 0), None);
    assert_eq!(read_uuid(&UUID, 0), Some((0x069a79f444e94026bf7386565599363b, 16)));
    assert_eq!(read_uuid(&UUID, 1), None);
    assert_eq!(read_optional_string(&[0], 0), Some((None, 1)));
    assert_eq!(read_optional_string(&[1, 1, b'x'], 0), Some((Some(String::from("x")), 3)));
    assert_eq!(read_optional_string(&[], 0), None);
}

#[test]
fn game_profile_reads_at_an_offset() {
    let mut m = vec![0xaau8];
    m.extend_from_slice(&UUID);
    put_string(&mut m, "Dan");
    put_varint(&mut m, 0);
    let (profile, end) = read_game_profile(&m, 1).unwrap();
    assert_eq!(profile.name, "Dan");
    assert_eq!(end, m.len());
    assert_eq!(read_game_profile(&m, 2), Err(VelocityError::FailedReadProfileName));
}

#[test]
fn login_challenge_asks_for_player_info() {
    let r = velocity_login_request(-12);
    assert_eq!(r.message_id, -12);
    assert_eq!(r.channel, "velocity:player_info");
    assert_eq!(r.data, vec![4u8]);
    let r = velocity_login();
    assert_eq!(r.channel, "velocity:player_info");
    assert_eq!(r.data, vec![4u8]);
}
