use roughtime_keys::sign::{Signer, Verifier, PUBLIC_KEY_LENGTH, SEED_LENGTH, SIGNATURE_LENGTH};

fn unhex(text: &str) -> Vec<u8> {
    let digits: Vec<u8> = text
        .bytes()
        .map(|c| match c {
            b'0'..=b'9' => c - b'0',
            b'a'..=b'f' => c - b'a' + 10,
            _ => panic!("not a hex digit"),
        })
        .collect();
    digits.chunks(2).map(|pair| pair[0] * 16 + pair[1]).collect()
}

const SEED_ONE: &str = "9d61b19deffd5a60ba844af492ec2cc44449c5697b326919703bac031cae7f60";
const PUBLIC_ONE: &str = "d75a980182b10ab7d54bfed3c964073a0ee172f3daa62325af021a68f707511a";
const SIGNATURE_ONE: &str = "e5564300c360ac729086e2cc806e828a84877f1eb8e5d974d873e06522490155\
5fb8821590a33bacc61e39701cf9b46bd25bf5f0595bbe24655141438e7a100b";

const SEED_TWO: &str = "4ccd089b28ff96da9db6c346ec114e0f5b8a319f35aba624da8cf6ed4fb8a6fb";
const PUBLIC_TWO: &str = "3d4017c3e843895a92b70aa74d1b7ebc9c982ccf2ec4968cc0cd55f12af4660c";
const MESSAGE_TWO: &str = "72";
const SIGNATURE_TWO: &str = "92a009a9f0d4cab8720e820b5f642540a2b27b5416503f8fb3762223ebdb69da\
085ac1e43e15996e458f3613d0f11d8c387b2eaeb4302aeeb00d291612bb0c00";

#[test]
fn lengths_are_those_of_ed25519() {
    assert_eq!(SEED_LENGTH, 32);
    assert_eq!(PUBLIC_KEY_LENGTH, 32);
    assert_eq!(SIGNATURE_LENGTH, 64);
}

#[test]
fn from_seed_derives_the_known_public_key() {
    let signer = Signer::from_seed(&unhex(SEED_ONE)).unwrap();
    assert_eq!(signer.public_key_bytes(), &unhex(PUBLIC_ONE)[..]);
    let signer = Signer::from_seed(&unhex(SEED_TWO)).unwrap();
    assert_eq!(signer.public_key_bytes(), &unhex(PUBLIC_TWO)[..]);
}

#[test]
fn from_seed_rejects_other_lengths() {
    assert!(Signer::from_seed(&[]).is_none());
    assert!(Signer::from_seed(&[7u8; 31]).is_none());
    assert!(Signer::from_seed(&[7u8; 33]).is_none());
    assert!(Signer::from_seed(&[7u8; 64]).is_none());
    assert!(Signer::from_seed(&[7u8; 32]).is_some());
}

#[test]
fn sign_gives_the_known_signature_of_the_empty_message() {
    let mut signer = Signer::from_seed(&unhex(SEED_ONE)).unwrap();
    assert_eq!(signer.sign(), unhex(SIGNATURE_ONE));
}

#[test]
fn sign_gives_the_known_signature_of_one_byte() {
    let mut signer = Signer::from_seed(&unhex(SEED_TWO)).unwrap();
    signer.update(&unhex(MESSAGE_TWO));
    assert_eq!(signer.sign(), unhex(SIGNATURE_TWO));
}

#[test]
fn sign_starts_a_new_message() {
    let mut signer = Signer::from_seed(&unhex(SEED_TWO)).unwrap();
    signer.update(b"something else");
    let first = signer.sign();
    assert_eq!(first.len(), 64);
    signer.update(&unhex(MESSAGE_TWO));
    assert_eq!(signer.sign(), unhex(SIGNATURE_TWO));
    assert_ne!(first, unhex(SIGNATURE_TWO));
}

#[test]
fn update_in_pieces_signs_the_whole() {
    let mut whole = Signer::from_seed(&unhex(SEED_ONE)).unwrap();
    whole.update(b"one message in three pieces");
    let mut pieces = Signer::from_seed(&unhex(SEED_ONE)).unwrap();
    pieces.update(b"one message");
    pieces.update(b"");
    pieces.update(b" in three pieces");
    assert_eq!(whole.sign(), pieces.sign());
}

#[test]
fn update_order_matters() {
    let mut first = Signer::from_seed(&unhex(SEED_ONE)).unwrap();
    first.update(b"ab");
    first.update(b"cd");
    let mut second = Signer::from_seed(&unhex(SEED_ONE)).unwrap();
    second.update(b"cd");
    second.update(b"ab");
    assert_ne!(first.sign(), second.sign());
}

#[test]
fn verifier_accepts_the_known_signature() {
    let mut verifier = Verifier::new(&unhex(PUBLIC_TWO));
    verifier.update(&unhex(MESSAGE_TWO));
    assert!(verifier.verify(&unhex(SIGNATURE_TWO)));
    let verifier = Verifier::new(&unhex(PUBLIC_ONE));
    assert!(verifier.verify(&unhex(SIGNATURE_ONE)));
}

#[test]
fn verifier_rejects_another_message_key_or_signature() {
    let mut verifier = Verifier::new(&unhex(PUBLIC_TWO));
    verifier.update(&[0x73]);
    assert!(!verifier.verify(&unhex(SIGNATURE_TWO)));

    let mut verifier = Verifier::new(&unhex(PUBLIC_ONE));
    verifier.update(&unhex(MESSAGE_TWO));
    assert!(!verifier.verify(&unhex(SIGNATURE_TWO)));

    let mut verifier = Verifier::new(&unhex(PUBLIC_TWO));
    verifier.update(&unhex(MESSAGE_TWO));
    assert!(!verifier.verify(&unhex(SIGNATURE_ONE)));
    assert!(!verifier.verify(&[]));
    assert!(!verifier.verify(&unhex(SIGNATURE_TWO)[..63]));
}

#[test]
fn verifier_rejects_a_malformed_public_key() {
    let mut verifier = Verifier::new(&unhex(PUBLIC_TWO)[..31]);
    verifier.update(&unhex(MESSAGE_TWO));
    assert!(!verifier.verify(&unhex(SIGNATURE_TWO)));
    let mut verifier = Verifier::new(&unhex(MESSAGE_TWO));
    verifier.update(&unhex(MESSAGE_TWO));
    assert!(!verifier.verify(&unhex(SIGNATURE_TWO)));
}

#[test]
fn verifier_takes_the_message_in_pieces() {
    let mut signer = Signer::from_seed(&[0x42; 32]).unwrap();
    signer.update(b"context\x00payload");
    let signature = signer.sign();
    let mut verifier = Verifier::new(signer.public_key_bytes());
    verifier.update(b"context\x00");
    verifier.update(b"payload");
    assert!(verifier.verify(&signature));
    verifier.update(b"!");
    assert!(!verifier.verify(&signature));
}

#[test]
fn new_signer_has_a_fresh_key() {
    let mut first = Signer::new().unwrap();
    let mut second = Signer::new().unwrap();
    assert_eq!(first.public_key_bytes().len(), 32);
    assert_eq!(second.public_key_bytes().len(), 32);
    assert_ne!(first.public_key_bytes(), second.public_key_bytes());
    first.update(b"hello");
    second.update(b"hello");
    let signature = first.sign();
    assert_ne!(signature, second.sign());
    let mut verifier = Verifier::new(first.public_key_bytes());
    verifier.update(b"hello");
    assert!(verifier.verify(&signature));
}
