use s3_decrypt::decrypt::{
    decode_keys, decrypt, decrypt_function, finish_decryption, recovered_plaintext, DecryptOutcome, KeyError,
    Base64Error, PublicKey, SecretKey, KEYBYTES, SEALBYTES,
};
use s3_decrypt::record::JsonError;
use sodiumoxide::crypto::box_::curve25519xsalsa20poly1305 as box_;
use sodiumoxide::crypto::sealedbox;

const RECORDS: &str = "[[\"2020-01-01\",\"10:00:00\",\"N\",35.2,\"N\",-97.5,\"W\",12,\"45\",1,2,3,4,5,6,7,8,\"1.5\",\"2.5\",\"yes\",\"P1\",\"M7\",\"TX\"]]";

fn keypair() -> (box_::PublicKey, box_::SecretKey) {
    box_::gen_keypair()
}

#[test]
fn seal_bytes_match_libsodium() {
    assert_eq!(SEALBYTES, sealedbox::SEALBYTES);
    assert_eq!(KEYBYTES, box_::PUBLICKEYBYTES);
    assert_eq!(KEYBYTES, box_::SECRETKEYBYTES);
}

#[test]
fn sealed_records_open_and_check() {
    let (pk, sk) = keypair();
    let c = sealedbox::seal(RECORDS.as_bytes(), &pk);
    let out = decrypt(&c, &PublicKey(pk.0), &SecretKey(sk.0)).unwrap();
    assert_eq!(out.result(), Ok(true));
    match out {
        DecryptOutcome::Tried { plaintext, opened, records } => {
            assert!(opened);
            assert_eq!(plaintext, RECORDS.as_bytes());
            assert!(records.is_ok());
        }
        DecryptOutcome::TooShort => panic!("expected an attempt"),
    }
}

#[test]
fn sealed_text_that_is_not_records_still_opens() {
    let (pk, sk) = keypair();
    let c = sealedbox::seal(b"hello", &pk);
    match decrypt(&c, &PublicKey(pk.0), &SecretKey(sk.0)).unwrap() {
        DecryptOutcome::Tried { plaintext, opened, records } => {
            assert!(opened);
            assert_eq!(plaintext, b"hello".to_vec());
            assert!(matches!(records, Err(JsonError::Syntax(_))));
        }
        DecryptOutcome::TooShort => panic!("expected an attempt"),
    }
}

#[test]
fn wrong_key_gives_zero_buffer() {
    let (pk, _sk) = keypair();
    let (_pk2, sk2) = keypair();
    let c = sealedbox::seal(b"abcdef", &pk);
    let out = decrypt(&c, &PublicKey(pk.0), &SecretKey(sk2.0)).unwrap();
    assert_eq!(out.result(), Err(()));
    match out {
        DecryptOutcome::Tried { plaintext, opened, records } => {
            assert!(!opened);
            assert_eq!(plaintext, vec![0u8; 6]);
            assert!(matches!(records, Err(JsonError::Syntax(_))));
        }
        DecryptOutcome::TooShort => panic!("expected an attempt"),
    }
}

#[test]
fn short_ciphertext_is_not_tried() {
    let (pk, sk) = keypair();
    let out = decrypt(&[1u8; 47], &PublicKey(pk.0), &SecretKey(sk.0)).unwrap();
    assert!(matches!(out, DecryptOutcome::TooShort));
    assert_eq!(out.result(), Err(()));
}

#[test]
fn minimal_ciphertext_with_wrong_tag_gives_empty_buffer() {
    let (pk, sk) = keypair();
    let out = decrypt(&[0u8; 48], &PublicKey(pk.0), &SecretKey(sk.0)).unwrap();
    match out {
        DecryptOutcome::Tried { plaintext, opened, .. } => {
            assert!(!opened);
            assert!(plaintext.is_empty());
        }
        DecryptOutcome::TooShort => panic!("expected an attempt"),
    }
}

#[test]
fn non_utf8_plaintext_stalls() {
    let (pk, sk) = keypair();
    let c = sealedbox::seal(&[0xff, 0xfe], &pk);
    assert!(decrypt(&c, &PublicKey(pk.0), &SecretKey(sk.0)).is_none());
}

#[test]
fn finishing_from_given_results() {
    assert!(matches!(finish_decryption(10, Err(())), Some(DecryptOutcome::TooShort)));
    assert!(finish_decryption(50, Ok(vec![0xc3])).is_none());
    match finish_decryption(50, Err(())) {
        Some(DecryptOutcome::Tried { plaintext, opened, .. }) => {
            assert!(!opened);
            assert_eq!(plaintext, vec![0u8, 0u8]);
        }
        _ => panic!("expected an attempt"),
    }
    match finish_decryption(50, Ok(b"[]".to_vec())) {
        Some(DecryptOutcome::Tried { opened, records, .. }) => {
            assert!(opened);
            assert!(records.is_ok());
        }
        _ => panic!("expected an attempt"),
    }
    assert_eq!(recovered_plaintext(51, Err(())), vec![0u8; 3]);
    assert_eq!(recovered_plaintext(51, Ok(vec![7, 8, 9])), vec![7, 8, 9]);
}

#[test]
fn keys_decode_from_base64() {
    let (pk, sk) = keypair();
    let (p, s) = decode_keys(&base64::encode(pk.0), &base64::encode(sk.0)).unwrap();
    assert_eq!(p.0, pk.0);
    assert_eq!(s.0, sk.0);
}

#[test]
fn key_errors_come_in_order() {
    let good = base64::encode([7u8; 32]);
    let short = base64::encode([7u8; 31]);
    assert!(matches!(decode_keys("not base64!", "also not"), Err(KeyError::PublicKeyDecode(_))));
    assert!(matches!(decode_keys(&short, "also not"), Err(KeyError::PublicKeyLength)));
    assert!(matches!(decode_keys(&good, "also not"), Err(KeyError::SecretKeyDecode(_))));
    assert!(matches!(decode_keys(&good, &short), Err(KeyError::SecretKeyLength)));
    assert!(decode_keys(&good, &good).is_ok());
}

#[test]
fn decrypt_function_reads_keys_then_opens() {
    let (pk, sk) = keypair();
    let c = sealedbox::seal(RECORDS.as_bytes(), &pk);
    let out = decrypt_function(&c, &base64::encode(pk.0), &base64::encode(sk.0)).unwrap().unwrap();
    assert_eq!(out.result(), Ok(true));
    assert!(matches!(
        decrypt_function(&c, "????", &base64::encode(sk.0)),
        Err(KeyError::PublicKeyDecode(_))
    ));
}

#[test]
fn key_errors_carry_the_decoder_error() {
    let good = base64::encode([7u8; 32]);
    assert_eq!(
        decode_keys("ab$d", &good).err(),
        Some(KeyError::PublicKeyDecode(Base64Error::InvalidByte(2, b'$')))
    );
    assert_eq!(decode_keys(&good, "abcde").err(), Some(KeyError::SecretKeyDecode(Base64Error::InvalidLength)));
    assert_eq!(
        decode_keys(&good, "ab==").err(),
        Some(KeyError::SecretKeyDecode(Base64Error::InvalidLastSymbol(1, b'b')))
    );
    assert!(matches!(
        decrypt_function(&[0u8; 60], "a?cd", &good),
        Err(KeyError::PublicKeyDecode(Base64Error::InvalidByte(1, b'?')))
    ));
}
