use vpass::vault::{EncryptedVault, Vault, VaultKey};
use vpass::Error;

fn init() {
    sodiumoxide::init().expect("Sodium init failed");
}

#[test]
fn encrypt_decrypt() {
    init();

    let password = "TestPass";
    let v = Vault::new(serde_json::to_vec(&1337u32).unwrap());
    let ec = v.encrypt(password);
    let bytes = ec.clone().to_bytes();
    let ec2 = EncryptedVault::from_bytes(&bytes).expect("Decode");
    assert!(ec.same(&ec2));
    let v2 = ec2.decrypt(password).expect("Decryption failed");

    assert_eq!(v.content, v2.content);
    assert_eq!(serde_json::from_slice::<u32>(&v2.content).unwrap(), 1337u32);
}

#[test]
fn vault_encrypt_decrypt() {
    init();

    let password = "TestPass";
    let v = Vault::new(serde_json::to_vec(&1337u32).unwrap());
    let ec = v.encrypt(password);
    let bytes = ec.clone().to_bytes();
    let ec2 = EncryptedVault::from_bytes(&bytes).unwrap();
    assert!(ec.same(&ec2));
    let v2 = ec2.decrypt(password).expect("Decryption failed");

    assert_eq!(v.content, v2.content);
}

#[test]
fn encrypt_decrypt_wrongpass() {
    init();

    let v = Vault::new(serde_json::to_vec(&1337u32).unwrap());
    let ec = v.encrypt("TestPass");
    let bytes = ec.clone().to_bytes();
    let ec2 = EncryptedVault::from_bytes(&bytes).expect("Decode");
    assert!(ec.same(&ec2));
    assert!(ec2.decrypt("WrongPass").is_none());
}

#[test]
fn vault_encrypt_decrypt_wrongpass() {
    init();

    let v = Vault::new(serde_json::to_vec(&1337u32).unwrap());
    let ec = v.encrypt("TestPass");
    let bytes = ec.clone().to_bytes();
    let ec2 = EncryptedVault::from_bytes(&bytes).unwrap();
    assert!(ec.same(&ec2));
    assert!(ec2.decrypt("WrongPass").is_none());
}

#[test]
fn round_trip_through_bytes() {
    init();
    let content = b"some content, some content, some content".to_vec();
    let bytes = vpass::encrypt("pw", content.clone()).unwrap();
    assert_eq!(vpass::decrypt(&bytes, "pw").unwrap(), content);
    assert!(matches!(vpass::decrypt(&bytes, "other"), Err(Error::WrongPassword)));
}

#[test]
fn empty_content_round_trips() {
    init();
    let bytes = vpass::encrypt("", Vec::new()).unwrap();
    assert_eq!(vpass::decrypt(&bytes, "").unwrap(), Vec::<u8>::new());
}

#[test]
fn stored_form_is_laid_out_as_described() {
    init();
    let v = Vault::new(vec![1u8, 2, 3]);
    let salt = [7u8; 32];
    let nonce = [9u8; 24];
    let ec = v.encrypt_with("pw", salt, nonce);
    let bytes = ec.to_bytes();
    assert_eq!(bytes[0], 0xd7);
    assert_eq!(&bytes[1..5], &[0, 0, 0, 0]);
    assert_eq!(&bytes[5..13], &32u64.to_le_bytes());
    assert_eq!(&bytes[13..45], &salt);
    assert_eq!(&bytes[45..53], &24u64.to_le_bytes());
    assert_eq!(&bytes[53..77], &nonce);
    let rest = (bytes.len() - 85) as u64;
    assert_eq!(&bytes[77..85], &rest.to_le_bytes());
    assert_eq!(ec.salt(), salt);
    assert_eq!(ec.nonce(), nonce);
}

#[test]
fn stored_form_is_what_bincode_writes() {
    init();
    let v = Vault::new(vec![1u8, 2, 3]);
    let salt = [7u8; 32];
    let nonce = [9u8; 24];
    let ec = v.encrypt_with("pw", salt, nonce);
    let bytes = ec.to_bytes();
    let data = bytes[85..].to_vec();
    let by_bincode =
        bincode::serialize(&(0xd7u8, 0u32, salt.to_vec(), nonce.to_vec(), data)).unwrap();
    assert_eq!(bytes, by_bincode);
}

#[test]
fn sealing_is_determined_by_its_inputs() {
    init();
    let v = Vault::new(b"content".to_vec());
    let a = v.encrypt_with("pw", [1u8; 32], [2u8; 24]);
    let b = v.encrypt_with("pw", [1u8; 32], [2u8; 24]);
    let c = v.encrypt_with("pw", [1u8; 32], [3u8; 24]);
    let d = v.encrypt_with("pw", [4u8; 32], [2u8; 24]);
    assert!(a.same(&b));
    assert!(!a.same(&c));
    assert!(!a.same(&d));
    // sealed and compressed data is not the content itself
    assert_ne!(a.to_bytes()[85..].to_vec(), b"content".to_vec());
}

#[test]
fn fresh_salt_and_nonce_each_time() {
    init();
    let v = Vault::new(b"content".to_vec());
    let a = v.encrypt("pw");
    let b = v.encrypt("pw");
    assert_ne!(a.salt(), b.salt());
    assert_ne!(a.nonce(), b.nonce());
}

#[test]
fn key_opens_what_the_password_sealed() {
    init();
    let v = Vault::new(b"content".to_vec());
    let ec = v.encrypt("pw");
    let key = VaultKey::reconstruct("pw", ec.salt());
    assert_eq!(key.salt(), ec.salt());
    assert_eq!(ec.decrypt_with_key(&key).unwrap().content, b"content".to_vec());
    let other = VaultKey::new("pw");
    assert!(ec.decrypt_with_key(&other).is_none());
}

#[test]
fn tampered_data_does_not_open() {
    init();
    let mut bytes = vpass::encrypt("pw", b"content".to_vec()).unwrap();
    let last = bytes.len() - 1;
    bytes[last] ^= 1;
    assert!(matches!(vpass::decrypt(&bytes, "pw"), Err(Error::WrongPassword)));
}

#[test]
fn wrong_magic_or_version_is_corrupted() {
    init();
    let bytes = vpass::encrypt("pw", b"content".to_vec()).unwrap();
    let mut magic = bytes.clone();
    magic[0] = 0xd6;
    assert!(EncryptedVault::from_bytes(&magic).is_err());
    assert!(matches!(vpass::decrypt(&magic, "pw"), Err(Error::VaultCorrupted)));
    let mut version = bytes.clone();
    version[1] = 1;
    assert!(EncryptedVault::from_bytes(&version).is_err());
    assert!(EncryptedVault::from_bytes(&bytes[..84]).is_err());
    assert!(EncryptedVault::from_bytes(&bytes[..bytes.len() - 1]).is_err());
    assert!(EncryptedVault::from_bytes(&[]).is_err());
    let mut longer = bytes.clone();
    longer.push(0);
    let read = EncryptedVault::from_bytes(&longer).unwrap();
    assert_eq!(read.to_bytes(), bytes);
}

#[test]
fn sealing_with_a_key_is_what_encrypting_with_its_password_does() {
    init();
    let v = Vault::new(b"content".to_vec());
    let key = VaultKey::reconstruct("pw", [7u8; 32]);
    let sealed = v.seal_with_key(&key, [9u8; 24]);
    assert!(sealed.same(&v.encrypt_with("pw", [7u8; 32], [9u8; 24])));
    assert_eq!(sealed.salt(), [7u8; 32]);
    assert_eq!(sealed.nonce(), [9u8; 24]);
    assert_eq!(sealed.decrypt_with_key(&key).unwrap().content, b"content".to_vec());
    assert!(!sealed.to_bytes().windows(7).any(|w| w == b"content"));
}
