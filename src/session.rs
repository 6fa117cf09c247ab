//! The broker: it completes handshakes, checks authorizations, plans the
//! mounts of a session, and keeps at most one session per user.
use vstd::prelude::*;
use crate::auth::MountAuth;
use crate::crypto::{broker_public_pem, oaep_plaintext_of, public_key_of};
use crate::handshake::{
    accept_consumed, accept_outcome, accept_pending, lemma_token_accepted_once, payload_token, store_consistent,
    tokens_evolve, HandshakeManager, SessionPrelude, TOKEN_LEN,
};
use crate::mount::{collection_fingerprint, mount_requests, request_matches, MountCollection, MountRun};
use crate::status::{BrokerError, CryptoError, StateError};

verus! {

/// A user as the system knows it: the account name and its home directory.
pub struct UserIdentity {
    pub name: String,
    pub home_dir: String,
}

/// An open session: the user's name and the handles of its mounts, which
/// undo the mounts when dropped.
pub struct UserSession<H> {
    pub username: String,
    pub mounts: Vec<H>,
}

/// Why loading a user's mount configuration failed.
#[derive(Clone, Copy, Debug, PartialEq, Eq, Structural)]
pub struct ConfigLoadError;

/// The broker's state: its handshake keys and tokens, and the open sessions.
pub struct Sessions<H> {
    handshake: HandshakeManager,
    sessions: Vec<UserSession<H>>,
    registry: Ghost<Map<Seq<char>, Seq<H>>>,
}

/// How the handshake's outcome decides the first steps of opening a session.
pub open spec fn handshake_step(
    outcome: Result<Seq<u8>, CryptoError>,
    r: Result<UserIdentity, BrokerError>,
    id: UserIdentity,
) -> bool {
    match outcome {
        Ok(_) => r == Ok::<UserIdentity, BrokerError>(id),
        Err(c) => r == Err::<UserIdentity, BrokerError>(BrokerError::Crypto(c)),
    }
}

/// Whether a run mounted every one of its requests.
pub open spec fn run_complete<H>(run: MountRun<H>) -> bool {
    !run.failed() && run.mounted().len() == run.requests().len()
}

impl<H> Sessions<H> {
    /// The open sessions: each user name with the handles of its mounts.
    pub closed spec fn registry(&self) -> Map<Seq<char>, Seq<H>> {
        self.registry@
    }

    /// The tokens issued and not yet consumed.
    pub closed spec fn pending(&self) -> Map<u64, Seq<u8>> {
        self.handshake.pending()
    }

    pub closed spec fn next_serial(&self) -> u64 {
        self.handshake.next_serial()
    }

    /// Every token this broker has issued.
    pub closed spec fn issued_tokens(&self) -> Set<Seq<u8>> {
        self.handshake.issued()
    }

    /// Every token this broker has accepted.
    pub closed spec fn consumed_tokens(&self) -> Set<Seq<u8>> {
        self.handshake.consumed()
    }

    /// The PEM text of the broker's private key.
    pub closed spec fn key_text(&self) -> Seq<char> {
        self.handshake.key_text()
    }

    /// The PEM text of the broker's public key.
    pub closed spec fn public_key_text(&self) -> Seq<char> {
        self.handshake.public_key_text()
    }

    pub closed spec fn wf(&self) -> bool {
        &&& self.handshake.wf()
        &&& forall|i: int|
            0 <= i < self.sessions@.len() ==> {
                &&& self.registry@.contains_key(#[trigger] self.sessions@[i].username@)
                &&& self.registry@[self.sessions@[i].username@] == self.sessions@[i].mounts@
            }
        &&& forall|k: Seq<char>| #[trigger]
            self.registry@.contains_key(k) ==> exists|i: int|
                0 <= i < self.sessions@.len() && #[trigger] self.sessions@[i].username@ == k
        &&& forall|i: int, j: int|
            0 <= i < j < self.sessions@.len() ==> #[trigger] self.sessions@[i].username@
                != #[trigger] self.sessions@[j].username@
    }

    /// A broker with the key pair of a PKCS#1 PEM private key, which must
    /// hold a valid key; no token issued and no session open.
    pub fn new(key_string: &str) -> (s: Sessions<H>)
        requires
            broker_public_pem(key_string@) is Some,
        ensures
            s.wf(),
            s.registry() == Map::<Seq<char>, Seq<H>>::empty(),
            s.pending() == Map::<u64, Seq<u8>>::empty(),
            s.next_serial() == 0,
            s.issued_tokens() == Set::<Seq<u8>>::empty(),
            s.consumed_tokens() == Set::<Seq<u8>>::empty(),
            s.key_text() == key_string@,
            Some(s.public_key_text()) == broker_public_pem(key_string@),
    {
        Sessions {
            handshake: HandshakeManager::new(key_string),
            sessions: Vec::new(),
            registry: Ghost(Map::empty()),
        }
    }

    /// The broker of a key text where it holds a valid PKCS#1 PEM private
    /// key; `None` where it does not, and the broker cannot start.
    pub fn try_new(key_string: &str) -> (r: Option<Sessions<H>>)
        ensures
            r is Some <==> broker_public_pem(key_string@) is Some,
            r matches Some(s) ==> {
                &&& s.wf()
                &&& s.registry() == Map::<Seq<char>, Seq<H>>::empty()
                &&& s.pending() == Map::<u64, Seq<u8>>::empty()
                &&& s.next_serial() == 0
                &&& s.issued_tokens() == Set::<Seq<u8>>::empty()
                &&& s.consumed_tokens() == Set::<Seq<u8>>::empty()
                &&& s.key_text() == key_string@
                &&& Some(s.public_key_text()) == broker_public_pem(key_string@)
            },
    {
        match public_key_of(key_string) {
            Some(_) => Some(Sessions::new(key_string)),
            None => None,
        }
    }

    /// The token store of a well-formed broker is consistent.
    pub proof fn lemma_consistent(&self)
        requires
            self.wf(),
        ensures
            store_consistent(self.pending(), self.next_serial()),
    {
        self.handshake.lemma_consistent();
    }

    /// A ciphertext whose token this broker already accepted is refused as
    /// a replay: in the last branch of `begin_open`, the result is
    /// `Err(Crypto(ReplayOrUnknownToken))`.
    pub proof fn lemma_consumed_token_refused(
        &self,
        ciphertext: Seq<u8>,
        id: UserIdentity,
        r: Result<UserIdentity, BrokerError>,
    )
        requires
            self.wf(),
            oaep_plaintext_of(self.key_text(), ciphertext) matches Some(p) && p.len() >= TOKEN_LEN
                && self.consumed_tokens().contains(payload_token(p)),
            handshake_step(
                accept_outcome(self.pending(), oaep_plaintext_of(self.key_text(), ciphertext)),
                r,
                id,
            ),
        ensures
            r == Err::<UserIdentity, BrokerError>(
                BrokerError::Crypto(CryptoError::ReplayOrUnknownToken),
            ),
    {
        self.handshake.lemma_consumed_refused(oaep_plaintext_of(self.key_text(), ciphertext)->Some_0);
    }

    /// Issues a handshake prelude: the public key and a fresh one-time token.
    pub fn initiate_session(&mut self) -> (r: Option<SessionPrelude>)
        requires
            old(self).wf(),
        ensures
            final(self).wf(),
            final(self).key_text() == old(self).key_text(),
            final(self).public_key_text() == old(self).public_key_text(),
            final(self).consumed_tokens() == old(self).consumed_tokens(),
            final(self).registry() == old(self).registry(),
            match r {
                Some(p) => {
                    &&& p.public_key@ == old(self).public_key_text()
                    &&& !old(self).issued_tokens().contains(p.token@)
                    &&& final(self).issued_tokens() == old(self).issued_tokens().insert(p.token@)
                    &&& crate::handshake::issued(
                        old(self).pending(),
                        old(self).next_serial(),
                        final(self).pending(),
                        final(self).next_serial(),
                        p.token@,
                    )
                },
                None => final(self).pending() == old(self).pending() && final(self).next_serial()
                    == old(self).next_serial() && final(self).issued_tokens() == old(
                    self
                ).issued_tokens(),
            },
    {
        let r = self.handshake.initiate();
        assert(forall|i: int|
            0 <= i < self.sessions@.len() ==> self.registry@.contains_key(
                #[trigger] self.sessions@[i].username@,
            ));
        r
    }

    fn find_session(&self, username: &String) -> (r: Option<usize>)
        ensures
            r matches Some(i) ==> i < self.sessions@.len() && self.sessions@[i as int].username@
                == username@,
            r is None ==> forall|j: int|
                0 <= j < self.sessions@.len() ==> #[trigger] self.sessions@[j].username@
                    != username@,
    {
        let mut i: usize = 0;
        while i < self.sessions.len()
            invariant
                i <= self.sessions@.len(),
                forall|j: int| 0 <= j < i ==> #[trigger] self.sessions@[j].username@ != username@,
            decreases self.sessions@.len() - i,
        {
            if self.sessions[i].username == *username {
                return Some(i);
            }
            i = i + 1;
        }
        None
    }

    /// Whether a session is open for `username`.
    pub fn has_session(&self, username: &str) -> (r: bool)
        requires
            self.wf(),
        ensures
            r == self.registry().contains_key(username@),
    {
        let name = username.to_owned();
        match self.find_session(&name) {
            Some(i) => true,
            None => false,
        }
    }

    /// The number of mounts the session of `username` holds; `None` where no
    /// session is open for it.
    pub fn session_mount_count(&self, username: &str) -> (r: Option<usize>)
        requires
            self.wf(),
        ensures
            self.registry().contains_key(username@) ==> r == Some(
                self.registry()[username@].len() as usize,
            ),
            !self.registry().contains_key(username@) ==> r is None,
    {
        let name = username.to_owned();
        match self.find_session(&name) {
            Some(i) => Some(self.sessions[i].mounts.len()),
            None => None,
        }
    }

    /// The first steps of opening a session: the user must be known and
    /// have no open session, and the ciphertext must carry a pending token,
    /// which is consumed. Yields the user to plan mounts for.
    ///
    /// The user's identity is vouched for by the login flow that runs
    /// before this call; the broker does not authenticate again. The secret
    /// that travels with the token is not checked: the credential only ties
    /// the request to a handshake that this broker started.
    pub fn begin_open(&mut self, identity: Option<UserIdentity>, ciphertext: &[u8]) -> (r: Result<
        UserIdentity,
        BrokerError,
    >)
        requires
            old(self).wf(),
        ensures
            final(self).wf(),
            final(self).key_text() == old(self).key_text(),
            final(self).public_key_text() == old(self).public_key_text(),
            final(self).issued_tokens() == old(self).issued_tokens(),
            final(self).registry() == old(self).registry(),
            final(self).next_serial() == old(self).next_serial(),
            match identity {
                None => (r matches Err(BrokerError::Identity)) && final(self).pending() == old(
                    self
                ).pending() && final(self).consumed_tokens() == old(self).consumed_tokens(),
                Some(id) => if old(self).registry().contains_key(id.name@) {
                    (r matches Err(BrokerError::State(StateError::AlreadyOpened))) && final(
                        self
                    ).pending() == old(self).pending() && final(self).consumed_tokens() == old(
                        self
                    ).consumed_tokens()
                } else {
                    &&& final(self).consumed_tokens() == accept_consumed(
                        old(self).consumed_tokens(),
                        old(self).pending(),
                        oaep_plaintext_of(old(self).key_text(), ciphertext@),
                    )
                    &&& final(self).pending() == accept_pending(
                        old(self).pending(),
                        oaep_plaintext_of(old(self).key_text(), ciphertext@),
                    )
                    &&& handshake_step(
                        accept_outcome(
                            old(self).pending(),
                            oaep_plaintext_of(old(self).key_text(), ciphertext@),
                        ),
                        r,
                        id,
                    )
                },
            },
    {
        let id = match identity {
            Some(id) => id,
            None => return Err(BrokerError::Identity),
        };
        if let Some(_) = self.find_session(&id.name) {
            return Err(BrokerError::State(StateError::AlreadyOpened));
        }
        let res = self.handshake.complete(ciphertext);
        assert(forall|i: int|
            0 <= i < self.sessions@.len() ==> self.registry@.contains_key(
                #[trigger] self.sessions@[i].username@,
            ));
        let r = match res {
            Ok(_secret) => Ok(id),
            Err(e) => Err(BrokerError::Crypto(e)),
        };
        r
    }

    /// The last step of opening a session: a run that mounted everything
    /// becomes the user's session; any other run is a mount failure, and
    /// whatever handles it still holds are dropped.
    pub fn finish_open(&mut self, identity: UserIdentity, run: MountRun<H>) -> (r: Result<
        (),
        BrokerError,
    >)
        requires
            old(self).wf(),
            run.wf(),
        ensures
            final(self).wf(),
            final(self).key_text() == old(self).key_text(),
            final(self).public_key_text() == old(self).public_key_text(),
            final(self).issued_tokens() == old(self).issued_tokens(),
            final(self).consumed_tokens() == old(self).consumed_tokens(),
            final(self).pending() == old(self).pending(),
            final(self).next_serial() == old(self).next_serial(),
            !run_complete(run) ==> r == Err::<(), BrokerError>(BrokerError::Mount) && final(self).registry() == old(self).registry(),
            run_complete(run) && old(self).registry().contains_key(identity.name@) ==> r == Err::<
                (),
                BrokerError,
            >(BrokerError::State(StateError::AlreadyOpened)) && final(self).registry() == old(self).registry(),
            run_complete(run) && !old(self).registry().contains_key(identity.name@) ==> r is Ok
                && final(self).registry() == old(self).registry().insert(
                identity.name@,
                run.mounted(),
            ),
    {
        if !run.is_complete() {
            return Err(BrokerError::Mount);
        }
        if let Some(_) = self.find_session(&identity.name) {
            return Err(BrokerError::State(StateError::AlreadyOpened));
        }
        let ghost name = identity.name@;
        let ghost held = run.mounted();
        let mounts = run.into_mounts();
        let ghost old_sessions = self.sessions@;
        let ghost old_registry = self.registry@;
        self.sessions.push(UserSession { username: identity.name, mounts });
        self.registry = Ghost(self.registry@.insert(name, held));
        proof {
            let n = old_sessions.len() as int;
            assert forall|k: Seq<char>| #[trigger] self.registry@.contains_key(k) implies exists|j: int|
                0 <= j < self.sessions@.len() && #[trigger] self.sessions@[j].username@ == k by {
                if k == name {
                    assert(self.sessions@[n].username@ == k);
                } else {
                    assert(old_registry.contains_key(k));
                    let j = choose|j: int|
                        0 <= j < old_sessions.len() && #[trigger] old_sessions[j].username@ == k;
                    assert(self.sessions@[j] == old_sessions[j]);
                }
            }
            assert forall|a: int, b: int|
                0 <= a < b < self.sessions@.len() implies #[trigger] self.sessions@[a].username@
                != #[trigger] self.sessions@[b].username@ by {
                if b == n {
                    assert(old_registry.contains_key(old_sessions[a].username@));
                }
            }
            assert forall|a: int| 0 <= a < self.sessions@.len() implies {
                &&& self.registry@.contains_key(#[trigger] self.sessions@[a].username@)
                &&& self.registry@[self.sessions@[a].username@] == self.sessions@[a].mounts@
            } by {
                if a < n {
                    assert(old_registry.contains_key(old_sessions[a].username@));
                }
            }
        }
        Ok(())
    }

    /// Closes the session of a user: it leaves the registry and is handed
    /// back, so that dropping it releases its mounts.
    pub fn close_user_session(&mut self, identity: Option<UserIdentity>) -> (r: Result<
        UserSession<H>,
        BrokerError,
    >)
        requires
            old(self).wf(),
        ensures
            final(self).wf(),
            final(self).key_text() == old(self).key_text(),
            final(self).public_key_text() == old(self).public_key_text(),
            final(self).issued_tokens() == old(self).issued_tokens(),
            final(self).consumed_tokens() == old(self).consumed_tokens(),
            final(self).pending() == old(self).pending(),
            final(self).next_serial() == old(self).next_serial(),
            match identity {
                None => (r matches Err(BrokerError::Identity)) && final(self).registry() == old(
                    self
                ).registry(),
                Some(id) => if old(self).registry().contains_key(id.name@) {
                    &&& r matches Ok(s)
                    &&& s.username@ == id.name@
                    &&& s.mounts@ == old(self).registry()[id.name@]
                    &&& final(self).registry() == old(self).registry().remove(id.name@)
                } else {
                    (r matches Err(BrokerError::State(StateError::AlreadyClosed))) && final(
                        self
                    ).registry() == old(self).registry()
                },
            },
    {
        let id = match identity {
            Some(id) => id,
            None => return Err(BrokerError::Identity),
        };
        let i = match self.find_session(&id.name) {
            Some(i) => i,
            None => return Err(BrokerError::State(StateError::AlreadyClosed)),
        };
        let ghost name = id.name@;
        let ghost old_sessions = self.sessions@;
        let ghost old_registry = self.registry@;
        let session = self.sessions.remove(i);
        self.registry = Ghost(self.registry@.remove(name));
        proof {
            assert forall|k: Seq<char>| #[trigger] self.registry@.contains_key(k) implies exists|j: int|
                0 <= j < self.sessions@.len() && #[trigger] self.sessions@[j].username@ == k by {
                assert(old_registry.contains_key(k));
                let j = choose|j: int|
                    0 <= j < old_sessions.len() && #[trigger] old_sessions[j].username@ == k;
                if j < i {
                    assert(self.sessions@[j] == old_sessions[j]);
                } else {
                    assert(j != i);
                    assert(self.sessions@[j - 1] == old_sessions[j]);
                }
            }
            assert forall|a: int, b: int|
                0 <= a < b < self.sessions@.len() implies #[trigger] self.sessions@[a].username@
                != #[trigger] self.sessions@[b].username@ by {
                let oa = if a < i { a } else { a + 1 };
                let ob = if b < i { b } else { b + 1 };
                assert(self.sessions@[a] == old_sessions[oa]);
                assert(self.sessions@[b] == old_sessions[ob]);
            }
            assert forall|a: int| 0 <= a < self.sessions@.len() implies {
                &&& self.registry@.contains_key(#[trigger] self.sessions@[a].username@)
                &&& self.registry@[self.sessions@[a].username@] == self.sessions@[a].mounts@
            } by {
                let oa = if a < i { a } else { a + 1 };
                assert(self.sessions@[a] == old_sessions[oa]);
                assert(old_sessions[oa].username@ != old_sessions[i as int].username@);
            }
        }
        Ok(session)
    }
}


/// Whether `reqs` mount the collection `c` in order, its home mount at `home_dir`.
pub open spec fn planned(reqs: Seq<crate::mount::MountRequest>, c: MountCollection, home_dir: Seq<char>) -> bool {
    &&& reqs.len() == c.extras@.len() + 1
    &&& forall|i: int|
        0 <= i < c.extras@.len() ==> request_matches(#[trigger] reqs[i], c.extras@[i].1, c.extras@[i].0@)
    &&& request_matches(reqs[c.extras@.len() as int], c.home, home_dir)
}

/// Whether a run has started and nothing has happened in it yet.
pub open spec fn fresh_run<H>(run: MountRun<H>) -> bool {
    &&& run.wf()
    &&& !run.failed()
    &&& run.mounted().len() == 0
    &&& run.outcomes().len() == 0
}

/// The middle step of opening a session: given the user's mount
/// configuration as loaded (`Ok(None)` where the user has none), the run
/// that mounts it, provided the table authorizes its fingerprint for the
/// user. A user without configuration gets a run with nothing to mount.
pub fn plan_session_mounts<H>(
    auth: &MountAuth,
    identity: &UserIdentity,
    loaded: Result<Option<MountCollection>, ConfigLoadError>,
) -> (r: Result<MountRun<H>, BrokerError>)
    requires
        auth.wf(),
    ensures
        match loaded {
            Err(_) => r matches Err(BrokerError::Config),
            Ok(None) => r matches Ok(run) && fresh_run(run) && run.requests().len() == 0,
            Ok(Some(c)) => if auth.grants().contains((identity.name@, collection_fingerprint(c))) {
                r matches Ok(run) && fresh_run(run) && planned(run.requests(), c, identity.home_dir@)
            } else {
                r matches Err(BrokerError::Authorization)
            },
        },
{
    match loaded {
        Err(_) => Err(BrokerError::Config),
        Ok(None) => Ok(MountRun::new(Vec::new())),
        Ok(Some(c)) => {
            if !auth.authorized(identity.name.as_str(), c.hash()) {
                return Err(BrokerError::Authorization);
            }
            let reqs = mount_requests(&c, identity.home_dir.as_str());
            Ok(MountRun::new(reqs))
        },
    }
}


/// Opening a session with a ciphertext whose token was already accepted by
/// an earlier opening is refused as a replay, whatever happened to the
/// token store in between.
pub proof fn lemma_open_replay_refused(
    pending0: Map<u64, Seq<u8>>,
    next0: u64,
    key: Seq<char>,
    first: Seq<u8>,
    pending1: Map<u64, Seq<u8>>,
    next1: u64,
    again: Seq<u8>,
    id: UserIdentity,
    r: Result<UserIdentity, BrokerError>,
)
    requires
        store_consistent(pending0, next0),
        oaep_plaintext_of(key, first) matches Some(p) && p.len() >= TOKEN_LEN,
        accept_outcome(pending0, oaep_plaintext_of(key, first)) is Ok,
        tokens_evolve(accept_pending(pending0, oaep_plaintext_of(key, first)), next0, pending1, next1),
        oaep_plaintext_of(key, again) matches Some(q) && q.len() >= TOKEN_LEN && payload_token(q)
            == payload_token(oaep_plaintext_of(key, first)->Some_0),
        handshake_step(accept_outcome(pending1, oaep_plaintext_of(key, again)), r, id),
    ensures
        r == Err::<UserIdentity, BrokerError>(BrokerError::Crypto(CryptoError::ReplayOrUnknownToken)),
{
    let p = oaep_plaintext_of(key, first)->Some_0;
    let q = oaep_plaintext_of(key, again)->Some_0;
    lemma_token_accepted_once(pending0, next0, p, pending1, next1, q);
}


/// A token `initiate_session` hands out differs from every token issued
/// before it: a token issued earlier stays in the record of issued tokens,
/// which no operation shrinks, and `initiate_session` only hands out a
/// token that is not in the record.
pub proof fn lemma_new_token_differs_from_earlier(
    issued_then: Set<Seq<u8>>,
    earlier: Seq<u8>,
    issued_now: Set<Seq<u8>>,
    fresh: Seq<u8>,
)
    requires
        issued_then.contains(earlier),
        issued_then.subset_of(issued_now),
        !issued_now.contains(fresh),
    ensures
        fresh != earlier,
{
}

} // verus!
