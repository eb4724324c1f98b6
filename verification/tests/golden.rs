//! The pipeline against values worked out by hand from the first two test
//! keys of RFC 8032.

use email_signer::digest::{digest, Digest};
use email_signer::encoder::encode;
use email_signer::key::{KeyStore, PrivateKeyMaterial};
use email_signer::service::{sign_email, SignRequest, SignResponse};
use email_signer::signer::sign;

fn hex(text: &str) -> Vec<u8> {
    let digits: Vec<u8> = text
        .bytes()
        .map(|b| match b {
            b'0'..=b'9' => b - b'0',
            b'a'..=b'f' => b - b'a' + 10,
            _ => panic!("not a hex digit"),
        })
        .collect();
    digits.chunks(2).map(|pair| pair[0] * 16 + pair[1]).collect()
}

const SEED: &str = "9d61b19deffd5a60ba844af492ec2cc44449c5697b326919703bac031cae7f60";
const PUBLIC_KEY: &str = "d75a980182b10ab7d54bfed3c964073a0ee172f3daa62325af021a68f707511a";
const OTHER_SEED: &str = "4ccd089b28ff96da9db6c346ec114e0f5b8a319f35aba624da8cf6ed4fb8a6fb";

const ALICE_TEXT: &str =
    "2A9AACZGQEA12SM9TGCEXZM5PGE3ITZJ8WDAHXFIDYUGTEKP5LRGLQHEUQBHYTEXQBZPP31WJAZN4JZUFMSK4U6S";

fn pkcs8_v1(seed: &str) -> Vec<u8> {
    hex(&format!("302e020100300506032b657004220420{}", seed))
}

fn pkcs8_v2() -> Vec<u8> {
    hex(&format!("3051020101300506032b657004220420{}812100{}", SEED, PUBLIC_KEY))
}

fn request(email: &str) -> SignRequest {
    SignRequest { email: email.to_string() }
}

fn answer(email: &str) -> String {
    let store = KeyStore::new("key.der".to_string());
    sign_email(&request(email), &store, Some(pkcs8_v1(SEED))).unwrap().signature
}

#[test]
fn golden_digest_of_alice() {
    let d = digest("alice@example.com");
    assert_eq!(
        d.as_bytes(),
        hex("ff8d9819fc0e12bf0d24892e45987e249a28dce836a85cad60e28eaaa8c6d976").as_slice()
    );
}

#[test]
fn golden_digest_of_the_empty_text() {
    let d = digest("");
    assert_eq!(
        d.as_bytes(),
        hex("e3b0c44298fc1c149afbf4c8996fb92427ae41e4649b934ca495991b7852b855").as_slice()
    );
    assert_eq!(d, Digest::of_bytes(b""));
}

#[test]
fn digest_is_32_bytes_and_not_its_input() {
    let input = [7u8; 32];
    let d = Digest::of_bytes(&input);
    assert_eq!(d.as_bytes().len(), 32);
    assert_ne!(d.as_bytes(), &input[..]);
}

#[test]
fn digest_hashes_the_utf8_bytes() {
    assert_eq!(digest("älice@example.com"), Digest::of_bytes("älice@example.com".as_bytes()));
    assert_eq!(
        digest("älice@example.com").as_bytes(),
        hex("f01ef058a5f38aa0ff1e410991eb81a7630b6a2c11b517e4939673ea8ce4a62e").as_slice()
    );
}

#[test]
fn digest_does_not_normalise() {
    let plain = digest("alice@example.com");
    assert_ne!(plain, digest("Alice@example.com"));
    assert_ne!(plain, digest(" alice@example.com"));
    assert_ne!(plain, digest("alice@example.com "));
    assert_ne!(plain, digest("alice@example.com\n"));
}

#[test]
fn golden_signature_of_alice() {
    let key = PrivateKeyMaterial::from_pkcs8(pkcs8_v1(SEED)).ok().unwrap();
    let signature = sign(&key, &digest("alice@example.com"));
    assert_eq!(
        signature.as_bytes(),
        hex("4e98a32fef33b815ef030624d092520abd4264153edf75684e5474efd23fa4bf243d7019e3244c435d857e03552f82733ef57b9257f16b2e667895d85e2e720c").as_slice()
    );
}

#[test]
fn golden_signature_of_the_empty_digest_input() {
    let key = PrivateKeyMaterial::from_pkcs8(pkcs8_v1(SEED)).ok().unwrap();
    let signature = sign(&key, &digest(""));
    assert_eq!(
        signature.as_bytes(),
        hex("48a96e8f6ca118b391bcec11dea165d4ecbcbb81f699bef153edee8a63e40468b688730c1ba7467bfb114b2c0a5a87b5f07b14597a2535d3f72c07b8ab1c3c07").as_slice()
    );
}

#[test]
fn signature_is_64_bytes_and_depends_on_the_key() {
    let first = PrivateKeyMaterial::from_pkcs8(pkcs8_v1(SEED)).ok().unwrap();
    let second = PrivateKeyMaterial::from_pkcs8(pkcs8_v1(OTHER_SEED)).ok().unwrap();
    let d = digest("alice@example.com");
    let a = sign(&first, &d);
    let b = sign(&second, &d);
    assert_eq!(a.as_bytes().len(), 64);
    assert_eq!(b.as_bytes().len(), 64);
    assert_ne!(a, b);
    assert_eq!(
        b.as_bytes(),
        hex("840f89e322fcbf28af35afe92c7d547b43b07dc5e2980bd645fe92ce55dceb8a60d963fb237fd5a06c2cd3431d6fe3960ae5f2bd75d7eca80f15c17d585ca202").as_slice()
    );
}

#[test]
fn golden_text_of_alice() {
    let key = PrivateKeyMaterial::from_pkcs8(pkcs8_v1(SEED)).ok().unwrap();
    let signature = sign(&key, &digest("alice@example.com"));
    assert_eq!(encode(signature.as_bytes()), ALICE_TEXT);
}

#[test]
fn golden_response_for_alice() {
    let store = KeyStore::new("certs/private_key.der".to_string());
    let outcome = sign_email(&request("alice@example.com"), &store, Some(pkcs8_v1(SEED)));
    assert_eq!(outcome, Ok(SignResponse { signature: ALICE_TEXT.to_string() }));
}

#[test]
fn golden_response_under_another_key() {
    let store = KeyStore::new("key.der".to_string());
    let outcome = sign_email(&request("alice@example.com"), &store, Some(pkcs8_v1(OTHER_SEED)));
    assert_eq!(
        outcome.unwrap().signature,
        "3E92QDBVPERESIRZL9QXXVGGBKNDJ3DKZT9Y5HAC3GFSUPUPOZYJWWSIBQ2SZ7UNEHVV39LALVFWD4288SQ8FHDJ"
    );
}

#[test]
fn golden_response_is_the_same_for_both_pkcs8_versions() {
    let store = KeyStore::new("key.der".to_string());
    let v1 = sign_email(&request("alice@example.com"), &store, Some(pkcs8_v1(SEED)));
    let v2 = sign_email(&request("alice@example.com"), &store, Some(pkcs8_v2()));
    assert!(v1.is_ok());
    assert_eq!(v1, v2);
}

#[test]
fn empty_email_is_signed_like_any_other() {
    assert_eq!(
        answer(""),
        "2TG2B7S7KSN1T4PJHE9N3PBUORVSAFQFWSLI6HBNXT4MS5YCUTEN9GTVR6UBFK8UR9UXZ1FDNBHJ2SA6PSMWXJFC"
    );
}

#[test]
fn same_email_gives_the_same_text_every_time() {
    let first = answer("alice@example.com");
    for _ in 0..20 {
        assert_eq!(answer("alice@example.com"), first);
    }
    assert_eq!(first, ALICE_TEXT);
}

#[test]
fn different_emails_give_different_texts() {
    let emails = ["alice@example.com", "bob@example.com", "Alice@example.com", " alice@example.com", ""];
    let texts: Vec<String> = emails.iter().map(|e| answer(e)).collect();
    for i in 0..texts.len() {
        for j in 0..i {
            assert_ne!(texts[i], texts[j], "{:?} and {:?}", emails[i], emails[j]);
        }
    }
    assert_eq!(
        texts[1],
        "FW3G9XVCAPOA6P9TTADFAU8YHJJIZ21H9QRXUDAEJEFN9Z2NXEHW9MEMF65R7N423XWWJRC5WWOEJXMKVRXL7TC"
    );
}

#[test]
fn text_is_upper_case_letters_and_digits() {
    for email in ["alice@example.com", "bob@example.com", "", "x"] {
        let text = answer(email);
        assert!(!text.is_empty());
        assert!(text.chars().all(|c| c.is_ascii_digit() || c.is_ascii_uppercase()), "{}", text);
    }
}
