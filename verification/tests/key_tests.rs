use black_bloc::hex::{decode_hex, digit_value, encode_hex};
use black_bloc::secp256k1::{
    all_zero, bytes_equal, verify_outcome, KeyPair, PubKey, SecKey, Secp256K1, Signature, ToHex,
    VerifyError,
};
use black_bloc::sha256::Sha256;
use black_bloc::wire::{encode_i64, encode_u64, to_unsigned};

#[test]
fn test_int() {
    let mut secp = Secp256K1::new();
    let (seckey, pubkey) = secp.gen_keypair();
    println!("{} {}", seckey.to_hex(), pubkey.to_hex());
    let keypair = KeyPair::from(&seckey);
    assert_eq!(seckey.to_bytes(), keypair.to_secret_key().unwrap().to_bytes());
    assert_eq!(pubkey.to_bytes(), keypair.to_public_key().unwrap().to_bytes());
    let msg = b"hello world bloc";
    let signature = seckey.sign(msg);
    let ver_res = pubkey.verify(msg, &signature);
    assert!(ver_res.is_ok());
}

#[test]
fn signature_round_trip_and_its_failures() {
    let mut secp = Secp256K1::new();
    let (seckey, pubkey) = secp.gen_keypair();
    let (_, other) = secp.gen_keypair();
    let msg = b"hello world bloc";
    let signature = seckey.try_sign(msg).unwrap();
    assert_eq!(pubkey.verify(msg, &signature), Ok(()));
    assert_eq!(
        pubkey.verify(b"hello world blod", &signature),
        Err(VerifyError::SignatureMismatch)
    );
    assert_eq!(other.verify(msg, &signature), Err(VerifyError::SignatureMismatch));
}

#[test]
fn signing_is_a_function_of_key_and_message() {
    let key = SecKey::new(&[7u8; 32]);
    let first = key.sign(b"same words");
    let second = key.sign(b"same words");
    assert_eq!(first, second);
    assert_ne!(first, key.sign(b"other words"));
    assert_ne!(first.to_bytes(), &[7u8; 32][..]);
}

#[test]
fn public_key_of_the_scalar_one() {
    let mut one = [0u8; 32];
    one[31] = 1;
    let key = SecKey::new(&one);
    assert!(key.is_valid());
    assert_eq!(
        key.public_key().unwrap().to_hex(),
        "0279be667ef9dcbbac55a06295ce870b07029bfcdb2dce28d959f2815b16f81798"
    );
    let pair = KeyPair::try_from(&key).unwrap();
    assert!(pair.is_keypair());
    assert_eq!(pair.to_secret_key().unwrap(), key);
    assert_eq!(
        pair.to_public_key().unwrap().to_hex(),
        "0279be667ef9dcbbac55a06295ce870b07029bfcdb2dce28d959f2815b16f81798"
    );
}

#[test]
fn scalars_that_cannot_sign() {
    let zero = SecKey::new(&[0u8; 32]);
    assert!(!zero.is_valid());
    assert!(zero.public_key().is_none());
    assert!(zero.try_sign(b"x").is_none());
    assert!(KeyPair::try_from(&zero).is_none());
    let top = SecKey::new(&[0xffu8; 32]);
    assert!(!top.is_valid());
    assert!(top.try_sign(b"x").is_none());
}

#[test]
fn verify_tells_a_bad_key_from_a_bad_signature() {
    let key = SecKey::new(&[7u8; 32]);
    let public = key.public_key().unwrap();
    let signature = key.sign(b"m");
    let no_key = PubKey::new(&[0u8; 33]);
    assert_eq!(no_key.verify(b"m", &signature), Err(VerifyError::InvalidPublicKey));
    let no_signature = Signature::from_slice(&[0u8; 64]);
    assert_eq!(public.verify(b"m", &no_signature), Err(VerifyError::SignatureMismatch));
    assert_eq!(public.verify(b"m", &signature), Ok(()));
}

#[test]
fn verdicts_map_to_results() {
    assert_eq!(verify_outcome(None), Err(VerifyError::InvalidPublicKey));
    assert_eq!(verify_outcome(Some(false)), Err(VerifyError::SignatureMismatch));
    assert_eq!(verify_outcome(Some(true)), Ok(()));
}

#[test]
fn generated_keys_belong_together() {
    let mut secp = Secp256K1::new();
    let (seckey, pubkey) = secp.gen_keypair();
    assert!(seckey.is_valid());
    assert_eq!(seckey.public_key(), Some(pubkey));
    assert!(!pubkey.is_zero());
    let (other, _) = secp.gen_keypair();
    assert_ne!(seckey, other);
}

#[test]
fn hex_of_keys_has_the_stated_lengths() {
    let mut secp = Secp256K1::new();
    let (seckey, pubkey) = secp.gen_keypair();
    assert_eq!(seckey.to_hex().len(), 64);
    assert_eq!(pubkey.to_hex().len(), 66);
    assert_eq!(seckey.sign(b"m").to_hex().len(), 128);
    assert_eq!(SecKey::from_hex(&seckey.to_hex()).unwrap(), seckey);
    assert_eq!(PubKey::from_hex(&pubkey.to_hex()).unwrap(), pubkey);
}

#[test]
fn hex_encoding_is_lowercase_and_padded() {
    assert_eq!(encode_hex(&[0x00, 0x0f, 0xa0, 0xff, 0x1b]), "000fa0ff1b");
    assert_eq!(encode_hex(&[]), "");
    let key = SecKey::new(&[0xabu8; 32]);
    assert_eq!(key.to_hex(), "ab".repeat(32));
}

#[test]
fn hex_decoding_takes_both_cases() {
    assert_eq!(decode_hex(b"000fA0ff1B"), Some(vec![0x00, 0x0f, 0xa0, 0xff, 0x1b]));
    assert_eq!(decode_hex(b""), Some(vec![]));
    assert_eq!(decode_hex(b"abc"), None);
    assert_eq!(decode_hex(b"0g"), None);
    assert_eq!(decode_hex(b"+f"), None);
    assert_eq!(digit_value(b'0'), Some(0));
    assert_eq!(digit_value(b'9'), Some(9));
    assert_eq!(digit_value(b'a'), Some(10));
    assert_eq!(digit_value(b'F'), Some(15));
    assert_eq!(digit_value(b'/'), None);
    assert_eq!(digit_value(b':'), None);
    assert_eq!(digit_value(b'`'), None);
    assert_eq!(digit_value(b'g'), None);
    assert_eq!(digit_value(b'@'), None);
    assert_eq!(digit_value(b'G'), None);
}

#[test]
fn from_hex_rejects_wrong_lengths() {
    let short = SecKey::from_hex(&"0".repeat(63)).unwrap_err();
    assert_eq!(short.desc, "a secret key takes 64 hex digits");
    let long = SecKey::from_hex(&"0".repeat(66)).unwrap_err();
    assert_eq!(long.desc, "a secret key takes 64 hex digits");
    let short = PubKey::from_hex(&"0".repeat(64)).unwrap_err();
    assert_eq!(short.desc, "a public key takes 66 hex digits");
    let empty = PubKey::from_hex("").unwrap_err();
    assert_eq!(empty.desc, "a public key takes 66 hex digits");
}

#[test]
fn from_hex_rejects_what_is_no_digit() {
    let mut text = "0".repeat(63);
    text.push('x');
    assert_eq!(SecKey::from_hex(&text).unwrap_err().desc, "not a hex digit");
    let mut text = "0".repeat(65);
    text.push('-');
    assert_eq!(PubKey::from_hex(&text).unwrap_err().desc, "not a hex digit");
    // 32 two-byte characters make 64 bytes, none of them a digit
    let wide = "é".repeat(32);
    assert_eq!(SecKey::from_hex(&wide).unwrap_err().desc, "not a hex digit");
}

#[test]
fn from_hex_reads_the_bytes() {
    let key = SecKey::from_hex(&"01".repeat(32)).unwrap();
    assert_eq!(key.to_bytes(), &[1u8; 32][..]);
    let key = PubKey::from_hex(&"Fe".repeat(33)).unwrap();
    assert_eq!(key.as_ref(), &[0xfeu8; 33][..]);
    assert_eq!(key, PubKey::from_slice(&[0xfeu8; 33]));
}

#[test]
fn zero_key_is_told_apart() {
    assert!(PubKey::new(&[0u8; 33]).is_zero());
    let mut bytes = [0u8; 33];
    bytes[32] = 1;
    assert!(!PubKey::new(&bytes).is_zero());
    assert!(PubKey::new(&bytes).same(&PubKey::from_slice(&bytes)));
    assert!(!PubKey::new(&bytes).same(&PubKey::new(&[0u8; 33])));
    assert!(all_zero(&[]));
    assert!(!all_zero(&[0, 0, 3]));
    assert!(bytes_equal(&[1, 2], &[1, 2]));
    assert!(!bytes_equal(&[1, 2], &[1, 3]));
    assert!(!bytes_equal(&[1, 2], &[1, 2, 3]));
}

#[test]
fn sha256_of_abc() {
    let digest = Sha256::hash(b"abc");
    assert_eq!(
        digest.to_hex(),
        "ba7816bf8f01cfea414140de5dae2223b00361a396177a9cb410ff61f20015ad"
    );
    assert_eq!(digest.to_vec().len(), 32);
    assert_eq!(digest.to_vec(), digest.as_ref().to_vec());
    assert!(digest.same(&Sha256::from_slice(&{
        let mut b = [0u8; 32];
        b.copy_from_slice(digest.as_ref());
        b
    })));
    assert!(!digest.same(&Sha256::zero()));
}

#[test]
fn zero_prefix_counts_bytes() {
    let mut bytes = [0u8; 32];
    bytes[2] = 9;
    let digest = Sha256::from_slice(&bytes);
    assert!(digest.starts_with_zeros(0));
    assert!(digest.starts_with_zeros(2));
    assert!(!digest.starts_with_zeros(3));
    assert!(!digest.starts_with_zeros(32));
    assert!(Sha256::zero().starts_with_zeros(32));
}

#[test]
fn numbers_are_eight_bytes_little_endian() {
    assert_eq!(encode_u64(1), vec![1, 0, 0, 0, 0, 0, 0, 0]);
    assert_eq!(encode_u64(0x0102030405060708), vec![8, 7, 6, 5, 4, 3, 2, 1]);
    assert_eq!(encode_u64(u64::MAX), vec![0xff; 8]);
    assert_eq!(encode_i64(-1), vec![0xff; 8]);
    assert_eq!(encode_i64(-2), vec![0xfe, 0xff, 0xff, 0xff, 0xff, 0xff, 0xff, 0xff]);
    assert_eq!(encode_i64(i64::MIN), vec![0, 0, 0, 0, 0, 0, 0, 0x80]);
    assert_eq!(encode_i64(333), vec![0x4d, 1, 0, 0, 0, 0, 0, 0]);
    assert_eq!(to_unsigned(-1), u64::MAX);
    assert_eq!(to_unsigned(i64::MIN), 1u64 << 63);
    assert_eq!(to_unsigned(5), 5);
}

#[test]
fn a_pair_yields_only_the_halves_it_carries() {
    let key = SecKey::new(&[7u8; 32]);
    let public = key.public_key().unwrap();
    let public_only = KeyPair::from_parts(None, Some(public));
    assert!(!public_only.is_keypair());
    assert_eq!(public_only.to_public_key().unwrap(), public);
    assert_eq!(public_only.to_secret_key().unwrap_err().desc, "the JWK holds no secret key");
    let secret_only = KeyPair::from_parts(Some(key), None);
    assert!(secret_only.is_keypair());
    assert_eq!(secret_only.to_secret_key().unwrap(), key);
    let err = secret_only.to_public_key().unwrap_err();
    assert_eq!(err.desc, "the JWK holds no public key");
    assert_eq!(err.to_string(), "Error { the JWK holds no public key }");
    assert_eq!(KeyPair::from_parts(Some(key), Some(public)), KeyPair::from(&key));
}

#[test]
fn signatures_are_read_from_hex() {
    let key = SecKey::new(&[7u8; 32]);
    let signature = key.sign(b"m");
    assert_eq!(Signature::from_hex(&signature.to_hex()).unwrap(), signature);
    assert_eq!(signature.as_ref(), signature.to_bytes());
    let err = Signature::from_hex(&"0".repeat(127)).unwrap_err();
    assert_eq!(err.desc, "a signature takes 128 hex digits");
    let mut text = "0".repeat(127);
    text.push('z');
    assert_eq!(Signature::from_hex(&text).unwrap_err().desc, "not a hex digit");
}

#[test]
fn a_key_says_whether_it_can_sign() {
    let key = SecKey::new(&[7u8; 32]);
    assert!(key.can_sign(b"m"));
    assert_eq!(key.try_sign(b"m"), Some(key.sign(b"m")));
    let public = key.public_key().unwrap();
    assert!(public.verify(b"m", &key.sign(b"m")).is_ok());
    let zero = SecKey::new(&[0u8; 32]);
    assert!(!zero.can_sign(b"m"));
    assert_eq!(zero.try_sign(b"m"), None);
}

#[test]
fn the_key_of_tens_shows_as_0a() {
    let key = SecKey::new(&[0x0au8; 32]);
    assert_eq!(key.to_hex(), "0a".repeat(32));
    let public = PubKey::new(&[0xf0u8; 33]);
    let text = public.to_hex();
    assert_eq!(text, "f0".repeat(33));
    assert_eq!(text.len(), 66);
    assert_eq!(PubKey::from_hex(&text).unwrap(), public);
    assert!(PubKey::from_hex(&"00".repeat(32)).is_err());
    assert_eq!(public.to_bytes().len(), 33);
}

#[test]
fn digits_and_arrays() {
    let digits: Vec<&str> = (0u8..16).map(black_bloc::hex::digit_text).collect();
    assert_eq!(digits.concat(), "0123456789abcdef");
    let array: [u8; 4] = black_bloc::secp256k1::to_array::<4>(&[1, 2, 3, 4]);
    assert_eq!(array, [1, 2, 3, 4]);
}
