use std::cell::Cell;
use std::rc::Rc;

use login_ng_broker::auth::MountAuth;
use login_ng_broker::handshake::{credential_plaintext, SessionPrelude};
use login_ng_broker::mount::{
    encode_collection, join_flags, mount_requests, prepare_target, MountCollection, MountRequest,
    MountRun, MountSpec, TargetAction, TargetState,
};
use login_ng_broker::session::{plan_session_mounts, ConfigLoadError, Sessions, UserIdentity};
use login_ng_broker::status::{BrokerError, CryptoError, ServiceOperationResult, StateError};

use rsa::pkcs1::{DecodeRsaPublicKey, EncodeRsaPrivateKey, LineEnding};
use rsa::rand_core::OsRng;
use rsa::{Oaep, RsaPrivateKey, RsaPublicKey};
use sha2::{Digest, Sha256};

struct Probe {
    releases: Rc<Cell<u32>>,
}

impl Drop for Probe {
    fn drop(&mut self) {
        self.releases.set(self.releases.get() + 1);
    }
}

fn key_pem() -> String {
    let key = RsaPrivateKey::new(&mut OsRng, 1024).unwrap();
    key.to_pkcs1_pem(LineEnding::LF).unwrap().to_string()
}

fn seal(prelude: &SessionPrelude, secret: &[u8]) -> Vec<u8> {
    let public = RsaPublicKey::from_pkcs1_pem(&prelude.public_key).unwrap();
    let plaintext = credential_plaintext(&prelude.token, secret);
    public.encrypt(&mut OsRng, Oaep::new::<Sha256>(), &plaintext).unwrap()
}

fn spec(fstype: &str, flags: &[&str], device: &str) -> MountSpec {
    MountSpec {
        fstype: fstype.to_string(),
        flags: flags.iter().map(|f| f.to_string()).collect(),
        device: device.to_string(),
    }
}

fn alice_collection() -> MountCollection {
    MountCollection {
        extras: vec![("/data".to_string(), spec("", &[], "deviceA"))],
        home: spec("", &[], "deviceB"),
    }
}

fn alice() -> UserIdentity {
    UserIdentity { name: "alice".to_string(), home_dir: "/home/alice".to_string() }
}

/// Performs the requests of a run, failing the `fail_at`th one (counting
/// from one); returns the (source, target) pairs mounted.
fn drive(run: &mut MountRun<Probe>, releases: &Rc<Cell<u32>>, fail_at: Option<usize>) -> Vec<(String, String)> {
    let mut done = vec![];
    let mut n = 0usize;
    loop {
        let (source, target) = match run.next_request() {
            Some(r) => (r.source.clone(), r.target.clone()),
            None => break,
        };
        n += 1;
        if Some(n) == fail_at {
            drop(run.record_failure());
            break;
        }
        done.push((source, target));
        run.record_mounted(Probe { releases: releases.clone() });
    }
    done
}

fn request(target: &str) -> MountRequest {
    MountRequest {
        fstype: "ext4".to_string(),
        data: String::new(),
        source: "dev".to_string(),
        target: target.to_string(),
    }
}

#[test]
fn flags_are_joined_with_commas() {
    assert_eq!(join_flags(&vec![]), "");
    assert_eq!(join_flags(&vec!["rw".to_string()]), "rw");
    assert_eq!(join_flags(&vec!["rw".to_string(), "noatime".to_string(), "uid=1000".to_string()]), "rw,noatime,uid=1000");
}

#[test]
fn requests_put_extras_before_home() {
    let c = MountCollection {
        extras: vec![
            ("/data".to_string(), spec("ext4", &["rw", "noatime"], "deviceA")),
            ("/media".to_string(), spec("", &[], "/srv/media")),
        ],
        home: spec("btrfs", &["subvol=alice"], "deviceB"),
    };
    let r = mount_requests(&c, "/home/alice");
    assert_eq!(r.len(), 3);
    assert_eq!((r[0].fstype.as_str(), r[0].data.as_str(), r[0].source.as_str(), r[0].target.as_str()), ("ext4", "rw,noatime", "deviceA", "/data"));
    assert_eq!((r[1].fstype.as_str(), r[1].data.as_str(), r[1].source.as_str(), r[1].target.as_str()), ("", "", "/srv/media", "/media"));
    assert_eq!((r[2].fstype.as_str(), r[2].data.as_str(), r[2].source.as_str(), r[2].target.as_str()), ("btrfs", "subvol=alice", "deviceB", "/home/alice"));
    assert!(!r[0].is_bind());
    assert!(r[1].is_bind());
}

#[test]
fn collection_encoding_is_length_prefixed() {
    let c = MountCollection { extras: vec![], home: spec("", &["a"], "d") };
    let mut expected = vec![];
    expected.extend_from_slice(&0u64.to_be_bytes());
    expected.extend_from_slice(&0u64.to_be_bytes());
    expected.extend_from_slice(&1u64.to_be_bytes());
    expected.extend_from_slice(&1u64.to_be_bytes());
    expected.push(b'a');
    expected.extend_from_slice(&1u64.to_be_bytes());
    expected.push(b'd');
    assert_eq!(encode_collection(&c), expected);
}

#[test]
fn fingerprint_is_digest_prefix() {
    let c = alice_collection();
    let digest = Sha256::digest(encode_collection(&c));
    let mut first = [0u8; 8];
    first.copy_from_slice(&digest[..8]);
    assert_eq!(c.hash(), u64::from_be_bytes(first));
    assert_eq!(c.hash(), alice_collection().hash());
    let other = MountCollection { extras: vec![], home: spec("", &[], "deviceB") };
    assert_ne!(c.hash(), other.hash());
}

#[test]
fn targets_are_prepared() {
    assert_eq!(prepare_target(TargetState::Missing), TargetAction::Create);
    assert_eq!(prepare_target(TargetState::Directory), TargetAction::Ready);
    assert_eq!(prepare_target(TargetState::Other), TargetAction::Conflict);
}

#[test]
fn complete_run_keeps_every_mount() {
    let releases = Rc::new(Cell::new(0));
    let mut run: MountRun<Probe> = MountRun::new(vec![request("/a"), request("/b")]);
    let done = drive(&mut run, &releases, None);
    assert_eq!(done.len(), 2);
    assert!(run.is_complete());
    let mounts = run.into_mounts();
    assert_eq!(mounts.len(), 2);
    assert_eq!(releases.get(), 0);
    drop(mounts);
    assert_eq!(releases.get(), 2);
}

#[test]
fn nth_failure_releases_earlier_mounts() {
    for n in 1..=4usize {
        let releases = Rc::new(Cell::new(0));
        let reqs = vec![request("/a"), request("/b"), request("/c"), request("/d")];
        let mut run: MountRun<Probe> = MountRun::new(reqs);
        let done = drive(&mut run, &releases, Some(n));
        assert_eq!(done.len(), n - 1);
        assert_eq!(releases.get() as usize, n - 1);
        assert!(!run.is_complete());
        assert!(run.next_request().is_none());
        assert!(run.into_mounts().is_empty());
        assert_eq!(releases.get() as usize, n - 1);
    }
}

#[test]
fn end_to_end_open_and_close() {
    let releases = Rc::new(Cell::new(0));
    let mut auth = MountAuth::empty();
    let f = alice_collection().hash();
    let candidate = auth.with_authorization("alice".to_string(), f);
    assert_eq!(auth.commit_authorization(candidate, true), Ok(()));
    let mut broker: Sessions<Probe> = Sessions::try_new(&key_pem()).unwrap();
    let p = broker.initiate_session().unwrap();
    let c = seal(&p, b"secret");
    let id = broker.begin_open(Some(alice()), &c).unwrap();
    let mut run = plan_session_mounts(&auth, &id, Ok(Some(alice_collection()))).unwrap();
    let done = drive(&mut run, &releases, None);
    assert_eq!(done, vec![("deviceA".to_string(), "/data".to_string()), ("deviceB".to_string(), "/home/alice".to_string())]);
    assert_eq!(broker.finish_open(id, run), Ok(()));
    assert!(broker.has_session("alice"));
    assert_eq!(broker.session_mount_count("alice"), Some(2));
    assert_eq!(releases.get(), 0);
    let session = broker.close_user_session(Some(alice())).unwrap();
    assert_eq!(session.username, "alice");
    assert!(!broker.has_session("alice"));
    drop(session);
    assert_eq!(releases.get(), 2);
}

#[test]
fn unauthorized_collection_mounts_nothing() {
    let auth = MountAuth::empty();
    let mut broker: Sessions<Probe> = Sessions::try_new(&key_pem()).unwrap();
    let p = broker.initiate_session().unwrap();
    let id = broker.begin_open(Some(alice()), &seal(&p, b"secret")).unwrap();
    let r = plan_session_mounts::<Probe>(&auth, &id, Ok(Some(alice_collection())));
    assert!(matches!(r, Err(BrokerError::Authorization)));
    assert_eq!(BrokerError::Authorization.status(), ServiceOperationResult::UnauthorizedMount);
    assert!(!broker.has_session("alice"));
}

#[test]
fn consumed_token_is_refused_on_open() {
    let mut broker: Sessions<Probe> = Sessions::try_new(&key_pem()).unwrap();
    let p = broker.initiate_session().unwrap();
    let c = seal(&p, b"secret");
    let id = broker.begin_open(Some(alice()), &c).unwrap();
    let run = plan_session_mounts::<Probe>(&MountAuth::empty(), &id, Ok(None)).unwrap();
    assert_eq!(broker.finish_open(id, run), Ok(()));
    assert!(broker.close_user_session(Some(alice())).is_ok());
    let r = broker.begin_open(Some(alice()), &c);
    assert!(matches!(r, Err(BrokerError::Crypto(CryptoError::ReplayOrUnknownToken))));
    assert_eq!(r.err().unwrap().status(), ServiceOperationResult::EncryptionError);
}

#[test]
fn second_open_fails_whatever_the_credential() {
    let mut broker: Sessions<Probe> = Sessions::try_new(&key_pem()).unwrap();
    let p = broker.initiate_session().unwrap();
    let id = broker.begin_open(Some(alice()), &seal(&p, b"s")).unwrap();
    let run = plan_session_mounts::<Probe>(&MountAuth::empty(), &id, Ok(None)).unwrap();
    assert_eq!(broker.finish_open(id, run), Ok(()));
    let p2 = broker.initiate_session().unwrap();
    let valid = seal(&p2, b"s");
    assert!(matches!(broker.begin_open(Some(alice()), &valid), Err(BrokerError::State(StateError::AlreadyOpened))));
    assert!(matches!(broker.begin_open(Some(alice()), &[0u8; 4]), Err(BrokerError::State(StateError::AlreadyOpened))));
    assert!(broker.close_user_session(Some(alice())).is_ok());
    assert!(broker.begin_open(Some(alice()), &valid).is_ok());
}

#[test]
fn unknown_user_and_closed_session() {
    let mut broker: Sessions<Probe> = Sessions::try_new(&key_pem()).unwrap();
    assert!(matches!(broker.begin_open(None, &[]), Err(BrokerError::Identity)));
    assert!(matches!(broker.close_user_session(None), Err(BrokerError::Identity)));
    assert!(matches!(broker.close_user_session(Some(alice())), Err(BrokerError::State(StateError::AlreadyClosed))));
    assert!(matches!(broker.begin_open(Some(alice()), &[1, 2]), Err(BrokerError::Crypto(CryptoError::Decryption))));
}

#[test]
fn config_failure_and_mount_failure() {
    let releases = Rc::new(Cell::new(0));
    let mut auth = MountAuth::empty();
    auth.add_authorization("alice".to_string(), alice_collection().hash());
    let r = plan_session_mounts::<Probe>(&auth, &alice(), Err(ConfigLoadError));
    assert!(matches!(r, Err(BrokerError::Config)));
    let mut broker: Sessions<Probe> = Sessions::try_new(&key_pem()).unwrap();
    let p = broker.initiate_session().unwrap();
    let id = broker.begin_open(Some(alice()), &seal(&p, b"s")).unwrap();
    let mut run = plan_session_mounts(&auth, &id, Ok(Some(alice_collection()))).unwrap();
    drive(&mut run, &releases, Some(2));
    assert_eq!(releases.get(), 1);
    assert_eq!(broker.finish_open(id, run), Err(BrokerError::Mount));
    assert!(!broker.has_session("alice"));
}

#[test]
fn user_without_configuration_opens_with_no_mounts() {
    let mut broker: Sessions<Probe> = Sessions::try_new(&key_pem()).unwrap();
    let p = broker.initiate_session().unwrap();
    let id = broker.begin_open(Some(alice()), &seal(&p, b"s")).unwrap();
    let run = plan_session_mounts::<Probe>(&MountAuth::empty(), &id, Ok(None)).unwrap();
    assert!(run.is_complete());
    assert_eq!(broker.finish_open(id, run), Ok(()));
    assert_eq!(broker.session_mount_count("alice"), Some(0));
}
