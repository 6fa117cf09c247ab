//! The one-time handshake: the broker hands out a public key with a fresh
//! token, and accepts a ciphertext of that token and a secret exactly once.
use vstd::prelude::*;
use std::collections::HashMap;
use crate::crypto::{broker_public_pem, oaep_decrypt, oaep_plaintext_of, os_random_bytes, public_key_of};
pub use crate::crypto::opt_bytes;
use crate::status::CryptoError;

verus! {

broadcast use vstd::std_specs::hash::group_hash_axioms;

/// Length of the serial number at the start of each token.
pub const SERIAL_LEN: usize = 8;

/// Length of the random part that follows the serial number.
pub const RANDOM_LEN: usize = 32;

/// Length of a one-time token in bytes.
pub const TOKEN_LEN: usize = 40;

/// The big-endian value of eight bytes.
pub open spec fn be_u64(b0: u8, b1: u8, b2: u8, b3: u8, b4: u8, b5: u8, b6: u8, b7: u8) -> u64 {
    ((b0 as u64) << 56u64) | ((b1 as u64) << 48u64) | ((b2 as u64) << 40u64) | ((b3 as u64)
        << 32u64) | ((b4 as u64) << 24u64) | ((b5 as u64) << 16u64) | ((b6 as u64) << 8u64) | (
    b7 as u64)
}

/// The fingerprint a token is stored under: the serial number held
/// big-endian in its first eight bytes.
pub open spec fn token_fingerprint(t: Seq<u8>) -> u64 {
    be_u64(t[0], t[1], t[2], t[3], t[4], t[5], t[6], t[7])
}

/// The plaintext a client encrypts: the token followed by the secret.
pub open spec fn credential_payload(token: Seq<u8>, secret: Seq<u8>) -> Seq<u8> {
    token + secret
}

/// The token at the start of a plaintext.
pub open spec fn payload_token(p: Seq<u8>) -> Seq<u8> {
    p.subrange(0, TOKEN_LEN as int)
}

/// The secret that follows the token in a plaintext.
pub open spec fn payload_secret(p: Seq<u8>) -> Seq<u8> {
    p.subrange(TOKEN_LEN as int, p.len() as int)
}

/// Whether a token is pending: issued, not yet consumed, and equal to what was stored.
pub open spec fn token_pending(pending: Map<u64, Seq<u8>>, t: Seq<u8>) -> bool {
    &&& t.len() == TOKEN_LEN
    &&& pending.contains_key(token_fingerprint(t))
    &&& pending[token_fingerprint(t)] == t
}

/// What accepting a decrypted plaintext (or a failed decryption) yields.
pub open spec fn accept_outcome(pending: Map<u64, Seq<u8>>, plaintext: Option<Seq<u8>>) -> Result<
    Seq<u8>,
    CryptoError,
> {
    match plaintext {
        None => Err(CryptoError::Decryption),
        Some(p) => if p.len() < TOKEN_LEN {
            Err(CryptoError::Decryption)
        } else if token_pending(pending, payload_token(p)) {
            Ok(payload_secret(p))
        } else {
            Err(CryptoError::ReplayOrUnknownToken)
        },
    }
}

/// The pending tokens after accepting a plaintext: the matched token alone is removed.
pub open spec fn accept_pending(pending: Map<u64, Seq<u8>>, plaintext: Option<Seq<u8>>) -> Map<
    u64,
    Seq<u8>,
> {
    match accept_outcome(pending, plaintext) {
        Ok(_) => pending.remove(token_fingerprint(payload_token(plaintext->Some_0))),
        Err(_) => pending,
    }
}

/// The accepted tokens after accepting a plaintext: the matched token joins them.
pub open spec fn accept_consumed(
    consumed: Set<Seq<u8>>,
    pending: Map<u64, Seq<u8>>,
    plaintext: Option<Seq<u8>>,
) -> Set<Seq<u8>> {
    match accept_outcome(pending, plaintext) {
        Ok(_) => consumed.insert(payload_token(plaintext->Some_0)),
        Err(_) => consumed,
    }
}

/// How the token store may change between two moments: serials only grow,
/// and every pending token was pending before, unchanged, or was issued in between.
pub open spec fn tokens_evolve(
    pending0: Map<u64, Seq<u8>>,
    next0: u64,
    pending1: Map<u64, Seq<u8>>,
    next1: u64,
) -> bool {
    &&& next0 <= next1
    &&& forall|k: u64| #[trigger]
        pending1.contains_key(k) ==> (pending0.contains_key(k) && pending1[k] == pending0[k]) || (
        next0 <= k && k < next1)
}

/// The change `initiate` makes when it issues token `t`: the token carries
/// the next serial, which then moves on by one, and is stored as pending.
pub open spec fn issued(
    pending0: Map<u64, Seq<u8>>,
    next0: u64,
    pending1: Map<u64, Seq<u8>>,
    next1: u64,
    t: Seq<u8>,
) -> bool {
    &&& t.len() == TOKEN_LEN
    &&& token_fingerprint(t) == next0
    &&& next0 < u64::MAX
    &&& next1 == next0 + 1
    &&& pending1 == pending0.insert(next0, t)
}

/// What `initiate` hands to a client: the broker's public key and a fresh token.
pub struct SessionPrelude {
    pub public_key: String,
    pub token: Vec<u8>,
}

/// Owns the broker's key pair and the tokens issued and not yet consumed.
pub struct HandshakeManager {
    key_text: String,
    public_pem: String,
    next_serial: u64,
    tokens: HashMap<u64, Vec<u8>>,
    issued: Ghost<Set<Seq<u8>>>,
    consumed: Ghost<Set<Seq<u8>>>,
}

/// Copies a byte slice into a new vector.
pub fn copy_bytes(a: &[u8]) -> (r: Vec<u8>)
    ensures
        r@ == a@,
{
    let mut r: Vec<u8> = Vec::new();
    let mut i: usize = 0;
    while i < a.len()
        invariant
            i <= a@.len(),
            r@ == a@.subrange(0, i as int),
        decreases a@.len() - i,
    {
        r.push(a[i]);
        i = i + 1;
    }
    assert(r@ =~= a@);
    r
}

/// The eight big-endian bytes of a number.
pub open spec fn be_bytes(n: u64) -> Seq<u8> {
    seq![
        (n >> 56u64) as u8,
        (n >> 48u64) as u8,
        (n >> 40u64) as u8,
        (n >> 32u64) as u8,
        (n >> 24u64) as u8,
        (n >> 16u64) as u8,
        (n >> 8u64) as u8,
        n as u8,
    ]
}

/// The eight big-endian bytes of a number.
#[verifier::truncate]
pub fn serial_bytes(n: u64) -> (r: Vec<u8>)
    ensures
        r@ == be_bytes(n),
        r@.len() == SERIAL_LEN,
        be_u64(r@[0], r@[1], r@[2], r@[3], r@[4], r@[5], r@[6], r@[7]) == n,
{
    let b0 = (n >> 56u64) as u8;
    let b1 = (n >> 48u64) as u8;
    let b2 = (n >> 40u64) as u8;
    let b3 = (n >> 32u64) as u8;
    let b4 = (n >> 24u64) as u8;
    let b5 = (n >> 16u64) as u8;
    let b6 = (n >> 8u64) as u8;
    let b7 = n as u8;
    assert(be_u64(
        (n >> 56u64) as u8,
        (n >> 48u64) as u8,
        (n >> 40u64) as u8,
        (n >> 32u64) as u8,
        (n >> 24u64) as u8,
        (n >> 16u64) as u8,
        (n >> 8u64) as u8,
        n as u8,
    ) == n) by (bit_vector);
    vec![b0, b1, b2, b3, b4, b5, b6, b7]
}


/// Whether `a` starts with `b`.
pub fn prefix_equals(a: &[u8], b: &[u8]) -> (r: bool)
    requires
        b@.len() <= a@.len(),
    ensures
        r == (a@.subrange(0, b@.len() as int) == b@),
{
    let mut i: usize = 0;
    while i < b.len()
        invariant
            b@.len() <= a@.len(),
            i <= b@.len(),
            a@.subrange(0, i as int) == b@.subrange(0, i as int),
        decreases b@.len() - i,
    {
        if a[i] != b[i] {
            assert(a@.subrange(0, b@.len() as int)[i as int] != b@[i as int]);
            return false;
        }
        assert(a@.subrange(0, i + 1) =~= a@.subrange(0, i as int).push(a@[i as int]));
        assert(b@.subrange(0, i + 1) =~= b@.subrange(0, i as int).push(b@[i as int]));
        i = i + 1;
    }
    assert(b@ =~= b@.subrange(0, i as int));
    true
}

/// The bytes of `a` from position `start` on.
pub fn bytes_from(a: &[u8], start: usize) -> (r: Vec<u8>)
    requires
        start <= a@.len(),
    ensures
        r@ == a@.subrange(start as int, a@.len() as int),
{
    let mut r: Vec<u8> = Vec::new();
    let mut i: usize = start;
    while i < a.len()
        invariant
            start <= i <= a@.len(),
            r@ == a@.subrange(start as int, i as int),
        decreases a@.len() - i,
    {
        r.push(a[i]);
        i = i + 1;
        assert(r@ =~= a@.subrange(start as int, i as int));
    }
    r
}

/// The fingerprint of the token at the start of a plaintext.
pub fn fingerprint_of(p: &[u8]) -> (r: u64)
    requires
        p@.len() >= SERIAL_LEN,
    ensures
        r == token_fingerprint(p@),
{
    ((p[0] as u64) << 56u64) | ((p[1] as u64) << 48u64) | ((p[2] as u64) << 40u64) | ((
    p[3] as u64) << 32u64) | ((p[4] as u64) << 24u64) | ((p[5] as u64) << 16u64) | ((p[6] as u64)
        << 8u64) | (p[7] as u64)
}

/// The plaintext a client encrypts for the broker: the token, then the secret.
pub fn credential_plaintext(token: &[u8], secret: &[u8]) -> (r: Vec<u8>)
    ensures
        r@ == credential_payload(token@, secret@),
{
    let mut r = copy_bytes(token);
    let mut i: usize = 0;
    while i < secret.len()
        invariant
            i <= secret@.len(),
            r@ == token@ + secret@.subrange(0, i as int),
        decreases secret@.len() - i,
    {
        r.push(secret[i]);
        i = i + 1;
        assert(r@ =~= token@ + secret@.subrange(0, i as int));
    }
    assert(secret@ =~= secret@.subrange(0, i as int));
    r
}

/// The view of a handshake result.
pub open spec fn result_bytes(r: Result<Vec<u8>, CryptoError>) -> Result<Seq<u8>, CryptoError> {
    match r {
        Ok(v) => Ok(v@),
        Err(e) => Err(e),
    }
}

/// What holds of every consistent token store: each pending token is
/// stored under its own fingerprint, which is below the next serial.
pub open spec fn store_consistent(pending: Map<u64, Seq<u8>>, next: u64) -> bool {
    forall|k: u64| #[trigger]
        pending.contains_key(k) ==> k < next && pending[k].len() == TOKEN_LEN && token_fingerprint(
            pending[k],
        ) == k
}

impl HandshakeManager {
    /// The tokens issued and not yet consumed, by fingerprint.
    pub closed spec fn pending(&self) -> Map<u64, Seq<u8>> {
        self.tokens@.map_values(|t: Vec<u8>| t@)
    }

    /// The serial number the next token will carry.
    pub closed spec fn next_serial(&self) -> u64 {
        self.next_serial
    }

    /// The PEM text of the broker's private key.
    pub closed spec fn key_text(&self) -> Seq<char> {
        self.key_text@
    }

    /// The PEM text of the broker's public key.
    pub closed spec fn public_key_text(&self) -> Seq<char> {
        self.public_pem@
    }

    /// Every token this manager has issued.
    pub closed spec fn issued(&self) -> Set<Seq<u8>> {
        self.issued@
    }

    /// Every token this manager has accepted.
    pub closed spec fn consumed(&self) -> Set<Seq<u8>> {
        self.consumed@
    }

    pub closed spec fn wf(&self) -> bool {
        &&& store_consistent(self.pending(), self.next_serial)
        &&& forall|t: Seq<u8>| #[trigger]
            self.issued@.contains(t) ==> t.len() == TOKEN_LEN && token_fingerprint(t)
                < self.next_serial
        &&& forall|t: Seq<u8>| #[trigger]
            self.consumed@.contains(t) ==> t.len() == TOKEN_LEN && token_fingerprint(t)
                < self.next_serial && !token_pending(self.pending(), t)
    }

    /// A token that was accepted once is refused as a replay.
    pub proof fn lemma_consumed_refused(&self, plaintext: Seq<u8>)
        requires
            self.wf(),
            plaintext.len() >= TOKEN_LEN,
            self.consumed().contains(payload_token(plaintext)),
        ensures
            accept_outcome(self.pending(), Some(plaintext)) == Err::<Seq<u8>, CryptoError>(
                CryptoError::ReplayOrUnknownToken,
            ),
    {
    }

    pub proof fn lemma_consistent(&self)
        requires
            self.wf(),
        ensures
            store_consistent(self.pending(), self.next_serial()),
    {
    }

    /// Loads the broker's key pair from a PKCS#1 PEM private key, which
    /// must hold a valid key. Nothing is issued yet.
    pub fn new(private_pem: &str) -> (m: HandshakeManager)
        requires
            broker_public_pem(private_pem@) is Some,
        ensures
            m.wf(),
            m.pending() == Map::<u64, Seq<u8>>::empty(),
            m.next_serial() == 0,
            m.issued() == Set::<Seq<u8>>::empty(),
            m.consumed() == Set::<Seq<u8>>::empty(),
            m.key_text() == private_pem@,
            Some(m.public_key_text()) == broker_public_pem(private_pem@),
    {
        let public_pem = public_key_of(private_pem).unwrap();
        let m = HandshakeManager {
            key_text: private_pem.to_owned(),
            public_pem,
            next_serial: 0,
            tokens: HashMap::new(),
            issued: Ghost(Set::empty()),
            consumed: Ghost(Set::empty()),
        };
        assert(m.pending() =~= Map::<u64, Seq<u8>>::empty());
        m
    }

    /// Loads the broker's key pair where the text holds a valid PKCS#1 PEM
    /// private key; `None` where it does not.
    pub fn try_new(private_pem: &str) -> (r: Option<HandshakeManager>)
        ensures
            r is Some <==> broker_public_pem(private_pem@) is Some,
            r matches Some(m) ==> {
                &&& m.wf()
                &&& m.pending() == Map::<u64, Seq<u8>>::empty()
                &&& m.next_serial() == 0
                &&& m.issued() == Set::<Seq<u8>>::empty()
                &&& m.consumed() == Set::<Seq<u8>>::empty()
                &&& m.key_text() == private_pem@
                &&& Some(m.public_key_text()) == broker_public_pem(private_pem@)
            },
    {
        match public_key_of(private_pem) {
            Some(_) => Some(HandshakeManager::new(private_pem)),
            None => None,
        }
    }

    /// Issues the token made of the next serial number and the given random
    /// bytes, and records it as pending.
    pub fn issue_token(&mut self, random: &[u8]) -> (r: SessionPrelude)
        requires
            old(self).wf(),
            random@.len() == RANDOM_LEN,
            old(self).next_serial() < u64::MAX,
        ensures
            final(self).wf(),
            final(self).public_key_text() == old(self).public_key_text(),
            final(self).key_text() == old(self).key_text(),
            !old(self).issued().contains(r.token@),
            final(self).issued() == old(self).issued().insert(r.token@),
            final(self).consumed() == old(self).consumed(),
            r.token@ == be_bytes(old(self).next_serial()) + random@,
            r.public_key@ == old(self).public_key_text(),
            issued(
                old(self).pending(),
                old(self).next_serial(),
                final(self).pending(),
                final(self).next_serial(),
                r.token@,
            ),
    {
        let serial = self.next_serial;
        let mut token = serial_bytes(serial);
        let ghost prefix = token@;
        let mut i: usize = 0;
        while i < random.len()
            invariant
                i <= random@.len(),
                random@.len() == RANDOM_LEN,
                prefix == be_bytes(serial),
                prefix.len() == SERIAL_LEN,
                be_u64(prefix[0], prefix[1], prefix[2], prefix[3], prefix[4], prefix[5], prefix[6], prefix[7]) == serial,
                token@ == prefix + random@.subrange(0, i as int),
            decreases random@.len() - i,
        {
            token.push(random[i]);
            i = i + 1;
            assert(token@ =~= prefix + random@.subrange(0, i as int));
        }
        assert(random@.subrange(0, i as int) =~= random@);
        assert(token@.len() == TOKEN_LEN);
        assert(token@[0] == prefix[0] && token@[1] == prefix[1] && token@[2] == prefix[2]
            && token@[3] == prefix[3] && token@[4] == prefix[4] && token@[5] == prefix[5]
            && token@[6] == prefix[6] && token@[7] == prefix[7]);
        assert(token_fingerprint(token@) == serial);
        let stored = copy_bytes(token.as_slice());
        let ghost old_pending = self.pending();
        self.tokens.insert(serial, stored);
        self.next_serial = serial + 1;
        self.issued = Ghost(self.issued@.insert(token@));
        assert(self.pending() =~= old_pending.insert(serial, token@));
        assert forall|t: Seq<u8>| #[trigger] self.consumed@.contains(t) implies t.len() == TOKEN_LEN
            && token_fingerprint(t) < self.next_serial && !token_pending(self.pending(), t) by {
            assert(token_fingerprint(t) != serial);
        }
        SessionPrelude { public_key: self.public_pem.clone(), token }
    }

    /// Issues a fresh token under the next serial number, with random bytes
    /// from the operating system, and records it as pending. `None`, with
    /// nothing changed, where the random source fails or the serial numbers
    /// are spent.
    pub fn initiate(&mut self) -> (r: Option<SessionPrelude>)
        requires
            old(self).wf(),
        ensures
            final(self).wf(),
            final(self).public_key_text() == old(self).public_key_text(),
            final(self).key_text() == old(self).key_text(),
            final(self).consumed() == old(self).consumed(),
            match r {
                Some(p) => {
                    &&& p.public_key@ == old(self).public_key_text()
                    &&& !old(self).issued().contains(p.token@)
                    &&& final(self).issued() == old(self).issued().insert(p.token@)
                    &&& p.token@.subrange(0, SERIAL_LEN as int) == be_bytes(old(self).next_serial())
                    &&& issued(
                        old(self).pending(),
                        old(self).next_serial(),
                        final(self).pending(),
                        final(self).next_serial(),
                        p.token@,
                    )
                },
                None => {
                    &&& final(self).pending() == old(self).pending()
                    &&& final(self).next_serial() == old(self).next_serial()
                    &&& final(self).issued() == old(self).issued()
                },
            },
    {
        if self.next_serial == u64::MAX {
            return None;
        }
        let random = match os_random_bytes(RANDOM_LEN) {
            Some(v) => v,
            None => return None,
        };
        let p = self.issue_token(random.as_slice());
        assert(p.token@.subrange(0, SERIAL_LEN as int) =~= be_bytes(old(self).next_serial()));
        Some(p)
    }

    /// Accepts a decrypted plaintext (`None` where decryption failed). A
    /// plaintext that starts with a pending token consumes that token alone
    /// and yields the secret after it.
    pub fn accept(&mut self, plaintext: Option<Vec<u8>>) -> (r: Result<Vec<u8>, CryptoError>)
        requires
            old(self).wf(),
        ensures
            final(self).wf(),
            final(self).next_serial() == old(self).next_serial(),
            final(self).public_key_text() == old(self).public_key_text(),
            final(self).key_text() == old(self).key_text(),
            final(self).issued() == old(self).issued(),
            final(self).consumed() == accept_consumed(
                old(self).consumed(),
                old(self).pending(),
                opt_bytes(plaintext),
            ),
            final(self).pending() == accept_pending(old(self).pending(), opt_bytes(plaintext)),
            result_bytes(r) == accept_outcome(old(self).pending(), opt_bytes(plaintext)),
    {
        let p = match plaintext {
            Some(p) => p,
            None => return Err(CryptoError::Decryption),
        };
        if p.len() < TOKEN_LEN {
            return Err(CryptoError::Decryption);
        }
        let ghost tok = payload_token(p@);
        assert(token_fingerprint(tok) == token_fingerprint(p@));
        let fp = fingerprint_of(p.as_slice());
        let matches = match self.tokens.get(&fp) {
            Some(stored) => prefix_equals(p.as_slice(), stored.as_slice()),
            None => false,
        };
        if !matches {
            return Err(CryptoError::ReplayOrUnknownToken);
        }
        let secret = bytes_from(p.as_slice(), TOKEN_LEN);
        let ghost old_pending = self.pending();
        self.tokens.remove(&fp);
        self.consumed = Ghost(self.consumed@.insert(tok));
        assert(self.pending() =~= old_pending.remove(fp));
        assert forall|t: Seq<u8>| #[trigger] self.consumed@.contains(t) implies t.len() == TOKEN_LEN
            && token_fingerprint(t) < self.next_serial && !token_pending(self.pending(), t) by {
            if t == tok {
                assert(old_pending.contains_key(fp));
            }
        }
        Ok(secret)
    }

    /// Decrypts a client's ciphertext with the broker's private key and
    /// accepts the plaintext, as `accept` does.
    pub fn complete(&mut self, ciphertext: &[u8]) -> (r: Result<Vec<u8>, CryptoError>)
        requires
            old(self).wf(),
        ensures
            final(self).wf(),
            final(self).next_serial() == old(self).next_serial(),
            final(self).public_key_text() == old(self).public_key_text(),
            final(self).key_text() == old(self).key_text(),
            final(self).issued() == old(self).issued(),
            final(self).consumed() == accept_consumed(
                old(self).consumed(),
                old(self).pending(),
                oaep_plaintext_of(old(self).key_text(), ciphertext@),
            ),
            final(self).pending() == accept_pending(
                old(self).pending(),
                oaep_plaintext_of(old(self).key_text(), ciphertext@),
            ),
            result_bytes(r) == accept_outcome(
                old(self).pending(),
                oaep_plaintext_of(old(self).key_text(), ciphertext@),
            ),
    {
        let plaintext = oaep_decrypt(self.key_text.as_str(), ciphertext);
        self.accept(plaintext)
    }
}


/// The changes of the token store compose: a store that evolved into a
/// second one, which evolved into a third, evolved into the third.
pub proof fn lemma_tokens_evolve_trans(
    a0: Map<u64, Seq<u8>>,
    n0: u64,
    a1: Map<u64, Seq<u8>>,
    n1: u64,
    a2: Map<u64, Seq<u8>>,
    n2: u64,
)
    requires
        tokens_evolve(a0, n0, a1, n1),
        tokens_evolve(a1, n1, a2, n2),
    ensures
        tokens_evolve(a0, n0, a2, n2),
{
}

/// Issuing a token, accepting a plaintext and completing a handshake are
/// each an evolution of the token store.
pub proof fn lemma_steps_evolve(a: Map<u64, Seq<u8>>, n: u64, plaintext: Option<Seq<u8>>)
    ensures
        tokens_evolve(a, n, accept_pending(a, plaintext), n),
        forall|a1: Map<u64, Seq<u8>>, n1: u64, t: Seq<u8>|
            #[trigger] issued(a, n, a1, n1, t) ==> tokens_evolve(a, n, a1, n1),
{
    let a1 = accept_pending(a, plaintext);
    assert forall|k: u64| #[trigger] a1.contains_key(k) implies (a.contains_key(k) && a1[k]
        == a[k]) || (n <= k && k < n) by {}
}

/// Two tokens issued by `initiate` at two moments are distinct, whatever
/// happened to the store in between; and accepting a plaintext that carries
/// one of them never consumes the other.
pub proof fn lemma_issued_tokens_distinct(
    a0: Map<u64, Seq<u8>>,
    n0: u64,
    a1: Map<u64, Seq<u8>>,
    n1: u64,
    t1: Seq<u8>,
    a2: Map<u64, Seq<u8>>,
    n2: u64,
    a3: Map<u64, Seq<u8>>,
    n3: u64,
    t2: Seq<u8>,
    plaintext: Seq<u8>,
)
    requires
        issued(a0, n0, a1, n1, t1),
        tokens_evolve(a1, n1, a2, n2),
        issued(a2, n2, a3, n3, t2),
        plaintext.len() >= TOKEN_LEN,
        payload_token(plaintext) == t1,
        token_pending(a3, t2),
    ensures
        t1 != t2,
        token_pending(accept_pending(a3, Some(plaintext)), t2),
{
    assert(token_fingerprint(t1) < token_fingerprint(t2));
    let after = accept_pending(a3, Some(plaintext));
    if accept_outcome(a3, Some(plaintext)) is Ok {
        assert(token_fingerprint(t1) != token_fingerprint(t2));
        assert(after == a3.remove(token_fingerprint(t1)));
    }
}

/// A token is accepted at most once: after a plaintext carrying token `x`
/// was accepted, any later plaintext carrying `x` is refused as a replay,
/// whatever happened to the store in between.
pub proof fn lemma_token_accepted_once(
    a0: Map<u64, Seq<u8>>,
    n0: u64,
    first: Seq<u8>,
    a2: Map<u64, Seq<u8>>,
    n2: u64,
    again: Seq<u8>,
)
    requires
        store_consistent(a0, n0),
        accept_outcome(a0, Some(first)) is Ok,
        tokens_evolve(accept_pending(a0, Some(first)), n0, a2, n2),
        again.len() >= TOKEN_LEN,
        payload_token(again) == payload_token(first),
    ensures
        accept_outcome(a2, Some(again)) == Err::<Seq<u8>, CryptoError>(
            CryptoError::ReplayOrUnknownToken,
        ),
{
    let k = token_fingerprint(payload_token(first));
    assert(a0.contains_key(k));
    let a1 = accept_pending(a0, Some(first));
    assert(!a1.contains_key(k));
    assert(!token_pending(a2, payload_token(again)));
}


/// The lowercase hexadecimal digit of a value below sixteen.
pub open spec fn hex_char(n: u8) -> char {
    if n == 0 {
        '0'
    } else if n == 1 {
        '1'
    } else if n == 2 {
        '2'
    } else if n == 3 {
        '3'
    } else if n == 4 {
        '4'
    } else if n == 5 {
        '5'
    } else if n == 6 {
        '6'
    } else if n == 7 {
        '7'
    } else if n == 8 {
        '8'
    } else if n == 9 {
        '9'
    } else if n == 10 {
        'a'
    } else if n == 11 {
        'b'
    } else if n == 12 {
        'c'
    } else if n == 13 {
        'd'
    } else if n == 14 {
        'e'
    } else {
        'f'
    }
}

/// The value of a lowercase hexadecimal digit; -1 for any other character.
pub open spec fn hex_value(c: char) -> int {
    if c == '0' {
        0
    } else if c == '1' {
        1
    } else if c == '2' {
        2
    } else if c == '3' {
        3
    } else if c == '4' {
        4
    } else if c == '5' {
        5
    } else if c == '6' {
        6
    } else if c == '7' {
        7
    } else if c == '8' {
        8
    } else if c == '9' {
        9
    } else if c == 'a' {
        10
    } else if c == 'b' {
        11
    } else if c == 'c' {
        12
    } else if c == 'd' {
        13
    } else if c == 'e' {
        14
    } else if c == 'f' {
        15
    } else {
        -1
    }
}

/// Two lowercase hexadecimal digits for each byte, high digit first.
pub open spec fn hex_text(b: Seq<u8>) -> Seq<char>
    decreases b.len(),
{
    if b.len() == 0 {
        Seq::empty()
    } else {
        hex_text(b.drop_last()) + seq![hex_char(b.last() / 16), hex_char(b.last() % 16)]
    }
}

/// The bytes that pairs of hexadecimal digits stand for.
pub open spec fn hex_decode(t: Seq<char>) -> Seq<u8> {
    Seq::new(t.len() / 2, |i: int| (16 * hex_value(t[2 * i]) + hex_value(t[2 * i + 1])) as u8)
}

/// The wire text of a prelude: the token in hexadecimal, a line feed, and
/// the public key's PEM text.
pub open spec fn wire_text(token: Seq<u8>, public_key: Seq<char>) -> Seq<char> {
    hex_text(token) + seq!['\n'] + public_key
}

/// Whether a text has the shape of a prelude's wire text.
pub open spec fn wire_well_formed(t: Seq<char>) -> bool {
    &&& t.len() > 2 * TOKEN_LEN
    &&& t[2 * TOKEN_LEN as int] == '\n'
    &&& forall|i: int| 0 <= i < 2 * TOKEN_LEN ==> 0 <= #[trigger] hex_value(t[i])
}

fn hex_str(n: u8) -> (r: &'static str)
    requires
        n < 16,
    ensures
        r@ == seq![hex_char(n)],
{
    if n == 0 {
        proof {
            reveal_strlit("0");
        }
        "0"
    } else if n == 1 {
        proof {
            reveal_strlit("1");
        }
        "1"
    } else if n == 2 {
        proof {
            reveal_strlit("2");
        }
        "2"
    } else if n == 3 {
        proof {
            reveal_strlit("3");
        }
        "3"
    } else if n == 4 {
        proof {
            reveal_strlit("4");
        }
        "4"
    } else if n == 5 {
        proof {
            reveal_strlit("5");
        }
        "5"
    } else if n == 6 {
        proof {
            reveal_strlit("6");
        }
        "6"
    } else if n == 7 {
        proof {
            reveal_strlit("7");
        }
        "7"
    } else if n == 8 {
        proof {
            reveal_strlit("8");
        }
        "8"
    } else if n == 9 {
        proof {
            reveal_strlit("9");
        }
        "9"
    } else if n == 10 {
        proof {
            reveal_strlit("a");
        }
        "a"
    } else if n == 11 {
        proof {
            reveal_strlit("b");
        }
        "b"
    } else if n == 12 {
        proof {
            reveal_strlit("c");
        }
        "c"
    } else if n == 13 {
        proof {
            reveal_strlit("d");
        }
        "d"
    } else if n == 14 {
        proof {
            reveal_strlit("e");
        }
        "e"
    } else {
        proof {
            reveal_strlit("f");
        }
        "f"
    }
}

fn hex_digit_value(c: char) -> (r: Option<u8>)
    ensures
        r matches Some(v) ==> v as int == hex_value(c) && v < 16,
        r is None ==> hex_value(c) == -1,
{
    if c == '0' {
        Some(0)
    } else if c == '1' {
        Some(1)
    } else if c == '2' {
        Some(2)
    } else if c == '3' {
        Some(3)
    } else if c == '4' {
        Some(4)
    } else if c == '5' {
        Some(5)
    } else if c == '6' {
        Some(6)
    } else if c == '7' {
        Some(7)
    } else if c == '8' {
        Some(8)
    } else if c == '9' {
        Some(9)
    } else if c == 'a' {
        Some(10)
    } else if c == 'b' {
        Some(11)
    } else if c == 'c' {
        Some(12)
    } else if c == 'd' {
        Some(13)
    } else if c == 'e' {
        Some(14)
    } else if c == 'f' {
        Some(15)
    } else {
        None
    }
}

proof fn lemma_hex_text(b: Seq<u8>)
    ensures
        hex_text(b).len() == 2 * b.len(),
        forall|i: int|
            0 <= i < b.len() ==> hex_text(b)[2 * i] == hex_char(#[trigger] b[i] / 16) && hex_text(
                b,
            )[2 * i + 1] == hex_char(b[i] % 16),
    decreases b.len(),
{
    if b.len() > 0 {
        lemma_hex_text(b.drop_last());
        assert forall|i: int|
            0 <= i < b.len() implies hex_text(b)[2 * i] == hex_char(#[trigger] b[i] / 16) && hex_text(
            b,
        )[2 * i + 1] == hex_char(b[i] % 16) by {
            if i < b.len() - 1 {
                assert(b.drop_last()[i] == b[i]);
            }
        }
    }
}

/// A prelude's wire text is well formed, and reading it back gives the
/// token and the public key it was made from.
pub proof fn lemma_wire_round_trip(token: Seq<u8>, public_key: Seq<char>)
    requires
        token.len() == TOKEN_LEN,
    ensures
        wire_well_formed(wire_text(token, public_key)),
        hex_decode(wire_text(token, public_key).subrange(0, 2 * TOKEN_LEN as int)) == token,
        wire_text(token, public_key).subrange(
            2 * TOKEN_LEN as int + 1,
            wire_text(token, public_key).len() as int,
        ) == public_key,
{
    lemma_hex_text(token);
    let t = wire_text(token, public_key);
    assert forall|i: int| 0 <= i < 2 * TOKEN_LEN implies 0 <= #[trigger] hex_value(t[i]) by {
        let j = i / 2;
        assert(token[j] / 16 < 16);
        if i % 2 == 0 {
            assert(i == 2 * j);
        } else {
            assert(i == 2 * j + 1);
        }
    }
    let d = hex_decode(t.subrange(0, 2 * TOKEN_LEN as int));
    assert forall|i: int| 0 <= i < TOKEN_LEN implies d[i] == token[i] by {
        assert(t[2 * i] == hex_char(token[i] / 16));
        assert(t[2 * i + 1] == hex_char(token[i] % 16));
    }
    assert(d =~= token);
    assert(t.subrange(2 * TOKEN_LEN as int + 1, t.len() as int) =~= public_key);
}

impl SessionPrelude {
    /// The text that crosses the privilege boundary for this prelude.
    pub fn to_wire(&self) -> (r: String)
        ensures
            r@ == wire_text(self.token@, self.public_key@),
    {
        let mut out = String::new();
        let mut i: usize = 0;
        while i < self.token.len()
            invariant
                i <= self.token@.len(),
                out@ == hex_text(self.token@.subrange(0, i as int)),
            decreases self.token@.len() - i,
        {
            let b = self.token[i];
            out.append(hex_str(b / 16));
            out.append(hex_str(b % 16));
            i = i + 1;
            assert(self.token@.subrange(0, i as int).drop_last() =~= self.token@.subrange(
                0,
                i - 1,
            ));
            assert(out@ =~= hex_text(self.token@.subrange(0, i as int)));
        }
        assert(self.token@.subrange(0, i as int) =~= self.token@);
        proof {
            reveal_strlit("\n");
        }
        out.append("\n");
        out.append(self.public_key.as_str());
        assert(out@ =~= wire_text(self.token@, self.public_key@));
        out
    }

    /// Reads a prelude from its wire text; `None` where the text does not
    /// start with the hexadecimal token and a line feed.
    pub fn from_wire(text: &str) -> (r: Option<SessionPrelude>)
        ensures
            r is Some <==> wire_well_formed(text@),
            r matches Some(p) ==> p.token@ == hex_decode(text@.subrange(0, 2 * TOKEN_LEN as int))
                && p.public_key@ == text@.subrange(2 * TOKEN_LEN as int + 1, text@.len() as int),
    {
        let n = text.unicode_len();
        if n <= 2 * TOKEN_LEN {
            return None;
        }
        if text.get_char(2 * TOKEN_LEN) != '\n' {
            return None;
        }
        let ghost head = text@.subrange(0, 2 * TOKEN_LEN as int);
        let mut token: Vec<u8> = Vec::new();
        let mut i: usize = 0;
        while i < TOKEN_LEN
            invariant
                n == text@.len(),
                n > 2 * TOKEN_LEN,
                i <= TOKEN_LEN,
                head == text@.subrange(0, 2 * TOKEN_LEN as int),
                token@.len() == i,
                forall|j: int| 0 <= j < 2 * i ==> 0 <= #[trigger] hex_value(text@[j]),
                forall|j: int| 0 <= j < i ==> #[trigger] token@[j] == hex_decode(head)[j],
            decreases TOKEN_LEN - i,
        {
            let hi = match hex_digit_value(text.get_char(2 * i)) {
                Some(v) => v,
                None => return None,
            };
            let lo = match hex_digit_value(text.get_char(2 * i + 1)) {
                Some(v) => v,
                None => return None,
            };
            token.push(16 * hi + lo);
            assert(head[2 * i as int] == text@[2 * i as int]);
            assert(head[2 * i + 1] == text@[2 * i + 1]);
            i = i + 1;
        }
        assert(token@ =~= hex_decode(head));
        let key = text.substring_char(2 * TOKEN_LEN + 1, n).to_owned();
        Some(SessionPrelude { public_key: key, token })
    }
}

} // verus!
