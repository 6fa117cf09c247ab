use login_ng_broker::auth::MountAuth;
use login_ng_broker::handshake::{credential_plaintext, HandshakeManager, SessionPrelude, RANDOM_LEN, TOKEN_LEN};
use login_ng_broker::session::Sessions;
use login_ng_broker::status::{BrokerError, CryptoError, ServiceOperationResult, StateError};

use rsa::pkcs1::{DecodeRsaPublicKey, EncodeRsaPrivateKey, LineEnding};
use rsa::rand_core::OsRng;
use rsa::{Oaep, RsaPrivateKey, RsaPublicKey};
use sha2::Sha256;


fn key_pem() -> String {
    let key = RsaPrivateKey::new(&mut OsRng, 1024).unwrap();
    key.to_pkcs1_pem(LineEnding::LF).unwrap().to_string()
}

fn seal(prelude: &SessionPrelude, secret: &[u8]) -> Vec<u8> {
    let public = RsaPublicKey::from_pkcs1_pem(&prelude.public_key).unwrap();
    let plaintext = credential_plaintext(&prelude.token, secret);
    public.encrypt(&mut OsRng, Oaep::new::<Sha256>(), &plaintext).unwrap()
}

#[test]
fn status_codes_are_stable() {
    assert_eq!(ServiceOperationResult::Success.code(), 0);
    assert_eq!(ServiceOperationResult::CannotIdentifyUser.code(), 1);
    assert_eq!(ServiceOperationResult::EncryptionError.code(), 5);
    assert_eq!(ServiceOperationResult::MountError.code(), 8);
    for c in 0..9u32 {
        assert_eq!(ServiceOperationResult::from_code(c).unwrap().code(), c);
    }
    assert_eq!(ServiceOperationResult::from_code(9), None);
}

#[test]
fn errors_map_to_status_codes() {
    assert_eq!(BrokerError::Identity.status(), ServiceOperationResult::CannotIdentifyUser);
    assert_eq!(
        BrokerError::State(StateError::AlreadyOpened).status(),
        ServiceOperationResult::SessionAlreadyOpened
    );
    assert_eq!(
        BrokerError::State(StateError::AlreadyClosed).status(),
        ServiceOperationResult::SessionAlreadyClosed
    );
    assert_eq!(
        BrokerError::Crypto(CryptoError::Decryption).status(),
        ServiceOperationResult::DataDecryptionFailed
    );
    assert_eq!(
        BrokerError::Crypto(CryptoError::ReplayOrUnknownToken).status(),
        ServiceOperationResult::EncryptionError
    );
    assert_eq!(BrokerError::Config.status(), ServiceOperationResult::CannotLoadUserMountError);
    assert_eq!(BrokerError::Authorization.status(), ServiceOperationResult::UnauthorizedMount);
    assert_eq!(BrokerError::Mount.status(), ServiceOperationResult::MountError);
    assert_eq!(BrokerError::Persistence.status(), ServiceOperationResult::CannotIdentifyUser);
}

#[test]
fn bad_key_is_refused() {
    assert!(HandshakeManager::try_new("not a key").is_none());
    assert!(Sessions::<u8>::try_new("").is_none());
}

#[test]
fn initiated_tokens_are_distinct_and_independent() {
    let mut hs = HandshakeManager::try_new(&key_pem()).unwrap();
    let p1 = hs.initiate().unwrap();
    let p2 = hs.initiate().unwrap();
    assert_eq!(p1.token.len(), TOKEN_LEN);
    assert_eq!(p2.token.len(), TOKEN_LEN);
    assert_ne!(p1.token, p2.token);
    assert_eq!(&p1.token[..8], &0u64.to_be_bytes());
    assert_eq!(&p2.token[..8], &1u64.to_be_bytes());
    assert!(p1.public_key.contains("BEGIN RSA PUBLIC KEY"));
    assert_eq!(p1.public_key, p2.public_key);
    let c1 = seal(&p1, b"one");
    let c2 = seal(&p2, b"two");
    assert_eq!(hs.complete(&c1), Ok(b"one".to_vec()));
    assert_eq!(hs.complete(&c2), Ok(b"two".to_vec()));
}

#[test]
fn token_is_accepted_once() {
    let mut hs = HandshakeManager::try_new(&key_pem()).unwrap();
    let p = hs.initiate().unwrap();
    let c = seal(&p, b"secret");
    assert_eq!(hs.complete(&c), Ok(b"secret".to_vec()));
    assert_eq!(hs.complete(&c), Err(CryptoError::ReplayOrUnknownToken));
    let again = seal(&p, b"secret");
    assert_eq!(hs.complete(&again), Err(CryptoError::ReplayOrUnknownToken));
}

#[test]
fn undecryptable_ciphertext_fails() {
    let mut hs = HandshakeManager::try_new(&key_pem()).unwrap();
    let p = hs.initiate().unwrap();
    assert_eq!(hs.complete(&[1, 2, 3]), Err(CryptoError::Decryption));
    let other = SessionPrelude { public_key: {
        let k = RsaPrivateKey::new(&mut OsRng, 1024).unwrap();
        rsa::pkcs1::EncodeRsaPublicKey::to_pkcs1_pem(&RsaPublicKey::from(&k), LineEnding::LF).unwrap()
    }, token: p.token.clone() };
    assert_eq!(hs.complete(&seal(&other, b"x")), Err(CryptoError::Decryption));
    assert_eq!(hs.complete(&seal(&p, b"x")), Ok(b"x".to_vec()));
}

#[test]
fn accept_checks_framing_and_token() {
    let mut hs = HandshakeManager::try_new(&key_pem()).unwrap();
    let p = hs.initiate().unwrap();
    assert_eq!(hs.accept(None), Err(CryptoError::Decryption));
    assert_eq!(hs.accept(Some(vec![0u8; TOKEN_LEN - 1])), Err(CryptoError::Decryption));
    let mut forged = p.token.clone();
    forged[TOKEN_LEN - 1] ^= 0xff;
    assert_eq!(hs.accept(Some(forged)), Err(CryptoError::ReplayOrUnknownToken));
    let mut unknown = p.token.clone();
    unknown[7] = 9;
    assert_eq!(hs.accept(Some(unknown)), Err(CryptoError::ReplayOrUnknownToken));
    let mut exact = p.token.clone();
    exact.extend_from_slice(b"pw");
    assert_eq!(hs.accept(Some(exact.clone())), Ok(b"pw".to_vec()));
    assert_eq!(hs.accept(Some(exact)), Err(CryptoError::ReplayOrUnknownToken));
    assert_eq!(hs.accept(Some(p.token.clone())), Err(CryptoError::ReplayOrUnknownToken));
}

#[test]
fn empty_secret_is_accepted() {
    let mut hs = HandshakeManager::try_new(&key_pem()).unwrap();
    let p = hs.initiate().unwrap();
    assert_eq!(hs.accept(Some(p.token.clone())), Ok(vec![]));
}

#[test]
fn credential_plaintext_is_token_then_secret() {
    assert_eq!(credential_plaintext(&[1, 2], &[3]), vec![1, 2, 3]);
    assert_eq!(credential_plaintext(&[], &[]), Vec::<u8>::new());
}

#[test]
fn authorization_defaults_to_deny() {
    let mut auth = MountAuth::empty();
    assert!(!auth.authorized("alice", 7));
    auth.add_authorization("alice".to_string(), 7);
    assert!(auth.authorized("alice", 7));
    assert!(!auth.authorized("alice", 8));
    assert!(!auth.authorized("bob", 7));
    auth.add_authorization("alice".to_string(), 8);
    auth.add_authorization("bob".to_string(), 1);
    assert!(auth.authorized("alice", 7));
    assert!(auth.authorized("alice", 8));
    assert!(auth.authorized("bob", 1));
    let mut rows = auth.entries();
    rows.sort();
    assert_eq!(rows, vec![("alice".to_string(), vec![7, 8]), ("bob".to_string(), vec![1])]);
}

#[test]
fn failed_write_rolls_back_authorization() {
    let mut auth = MountAuth::empty();
    auth.add_authorization("alice".to_string(), 1);
    let candidate = auth.with_authorization("alice".to_string(), 2);
    assert!(candidate.authorized("alice", 2));
    assert!(!auth.authorized("alice", 2));
    assert_eq!(auth.commit_authorization(candidate, false), Err(BrokerError::Persistence));
    assert!(!auth.authorized("alice", 2));
    assert!(auth.authorized("alice", 1));
    let candidate = auth.with_authorization("alice".to_string(), 2);
    assert_eq!(auth.commit_authorization(candidate, true), Ok(()));
    assert!(auth.authorized("alice", 2));
    assert!(auth.authorized("alice", 1));
}

#[test]
fn issued_token_is_serial_then_random_bytes() {
    let mut hs = HandshakeManager::try_new(&key_pem()).unwrap();
    let random: Vec<u8> = (100u8..100 + RANDOM_LEN as u8).collect();
    let p = hs.issue_token(&random);
    let mut expected = 0u64.to_be_bytes().to_vec();
    expected.extend_from_slice(&random);
    assert_eq!(p.token, expected);
    let q = hs.initiate().unwrap();
    assert_eq!(&q.token[..8], &1u64.to_be_bytes());
    assert_eq!(q.token.len(), TOKEN_LEN);
    assert_ne!(&q.token[8..], &[0u8; RANDOM_LEN][..]);
    let mut plaintext = p.token.clone();
    plaintext.extend_from_slice(b"k");
    assert_eq!(hs.accept(Some(plaintext)), Ok(b"k".to_vec()));
}

#[test]
fn valid_key_constructs_directly() {
    let pem = key_pem();
    let mut hs = HandshakeManager::new(&pem);
    let p = hs.initiate().unwrap();
    assert_eq!(&p.token[..8], &0u64.to_be_bytes());
    let mut broker: Sessions<u8> = Sessions::new(&pem);
    assert!(!broker.has_session("alice"));
    let q = broker.initiate_session().unwrap();
    assert_eq!(q.public_key, p.public_key);
}

#[test]
fn missing_table_denies_everything() {
    let auth = MountAuth::default();
    assert!(!auth.authorized("alice", 0));
    assert!(!auth.authorized("", u64::MAX));
}
