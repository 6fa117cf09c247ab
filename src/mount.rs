//! Mount collections, their fingerprints, and the all-or-nothing run that
//! mounts a collection in order and gives back every handle when one fails.
use vstd::prelude::*;
use crate::crypto::{sha256, sha256_of};
use crate::handshake::{be_bytes, be_u64, serial_bytes};

verus! {

/// One mount: the filesystem type (empty for a type-less bind mount), its
/// options in order, and the source device.
pub struct MountSpec {
    pub fstype: String,
    pub flags: Vec<String>,
    pub device: String,
}

/// A user's mounts: the extra mounts in order, each with its target
/// directory, then the mount of the home directory.
pub struct MountCollection {
    pub extras: Vec<(String, MountSpec)>,
    pub home: MountSpec,
}

/// One mount operation as the operating system takes it: type, option
/// string, source and target.
pub struct MountRequest {
    pub fstype: String,
    pub data: String,
    pub source: String,
    pub target: String,
}

/// The options joined by commas.
pub open spec fn join_comma(flags: Seq<Seq<char>>) -> Seq<char>
    decreases flags.len(),
{
    if flags.len() == 0 {
        Seq::empty()
    } else if flags.len() == 1 {
        flags[0]
    } else {
        join_comma(flags.drop_last()) + seq![','] + flags.last()
    }
}

/// The views of a sequence of strings.
pub open spec fn string_views(v: Seq<String>) -> Seq<Seq<char>> {
    v.map_values(|s: String| s@)
}

/// The request that mounts `m` at `target`.
pub open spec fn request_matches(r: MountRequest, m: MountSpec, target: Seq<char>) -> bool {
    &&& r.fstype@ == m.fstype@
    &&& r.data@ == join_comma(string_views(m.flags@))
    &&& r.source@ == m.device@
    &&& r.target@ == target
}

/// A length-prefixed field: eight big-endian length bytes, then the bytes.
pub open spec fn field(b: Seq<u8>) -> Seq<u8> {
    be_bytes(b.len() as u64) + b
}

/// The UTF-8 bytes of a string.
pub open spec fn utf8(s: Seq<char>) -> Seq<u8> {
    vstd::utf8::encode_utf8(s)
}

pub open spec fn flags_encoding(flags: Seq<String>) -> Seq<u8>
    decreases flags.len(),
{
    if flags.len() == 0 {
        Seq::empty()
    } else {
        flags_encoding(flags.drop_last()) + field(utf8(flags.last()@))
    }
}

/// The canonical bytes of a mount: type, option count and options, device.
pub open spec fn spec_encoding(m: MountSpec) -> Seq<u8> {
    field(utf8(m.fstype@)) + be_bytes(m.flags@.len() as u64) + flags_encoding(m.flags@) + field(
        utf8(m.device@),
    )
}

pub open spec fn extras_encoding(extras: Seq<(String, MountSpec)>) -> Seq<u8>
    decreases extras.len(),
{
    if extras.len() == 0 {
        Seq::empty()
    } else {
        extras_encoding(extras.drop_last()) + field(utf8(extras.last().0@)) + spec_encoding(
            extras.last().1,
        )
    }
}

/// The canonical bytes of a collection: the count of extra mounts, each
/// with its target, then the home mount.
pub open spec fn collection_encoding(c: MountCollection) -> Seq<u8> {
    be_bytes(c.extras@.len() as u64) + extras_encoding(c.extras@) + spec_encoding(c.home)
}

/// The fingerprint of a collection: the first eight bytes, big-endian, of
/// the SHA-256 digest of its canonical bytes.
pub open spec fn collection_fingerprint(c: MountCollection) -> u64 {
    let d = sha256_of(collection_encoding(c));
    be_u64(d[0], d[1], d[2], d[3], d[4], d[5], d[6], d[7])
}

fn append_bytes(out: &mut Vec<u8>, b: &[u8])
    ensures
        final(out)@ == old(out)@ + b@,
{
    let ghost start = out@;
    let mut i: usize = 0;
    while i < b.len()
        invariant
            i <= b@.len(),
            out@ == start + b@.subrange(0, i as int),
        decreases b@.len() - i,
    {
        out.push(b[i]);
        i = i + 1;
        assert(out@ =~= start + b@.subrange(0, i as int));
    }
    assert(b@ =~= b@.subrange(0, i as int));
}

fn append_field(out: &mut Vec<u8>, s: &String)
    ensures
        final(out)@ == old(out)@ + field(utf8(s@)),
{
    let b = s.as_str().as_bytes();
    let len = serial_bytes(b.len() as u64);
    let ghost start = out@;
    append_bytes(out, len.as_slice());
    append_bytes(out, b);
    assert(out@ =~= start + field(utf8(s@)));
}

fn append_spec(out: &mut Vec<u8>, m: &MountSpec)
    ensures
        final(out)@ == old(out)@ + spec_encoding(*m),
{
    let ghost start = out@;
    append_field(out, &m.fstype);
    let count = serial_bytes(m.flags.len() as u64);
    append_bytes(out, count.as_slice());
    let ghost mid = out@;
    let mut i: usize = 0;
    while i < m.flags.len()
        invariant
            i <= m.flags@.len(),
            out@ == mid + flags_encoding(m.flags@.subrange(0, i as int)),
        decreases m.flags@.len() - i,
    {
        append_field(out, &m.flags[i]);
        i = i + 1;
        assert(m.flags@.subrange(0, i as int).drop_last() =~= m.flags@.subrange(0, i - 1));
        assert(out@ =~= mid + flags_encoding(m.flags@.subrange(0, i as int)));
    }
    assert(m.flags@.subrange(0, i as int) =~= m.flags@);
    append_field(out, &m.device);
    assert(out@ =~= start + spec_encoding(*m));
}

/// The canonical bytes of a collection.
pub fn encode_collection(c: &MountCollection) -> (r: Vec<u8>)
    ensures
        r@ == collection_encoding(*c),
{
    let mut out = serial_bytes(c.extras.len() as u64);
    let ghost mid = out@;
    let mut i: usize = 0;
    while i < c.extras.len()
        invariant
            i <= c.extras@.len(),
            out@ == mid + extras_encoding(c.extras@.subrange(0, i as int)),
        decreases c.extras@.len() - i,
    {
        append_field(&mut out, &c.extras[i].0);
        append_spec(&mut out, &c.extras[i].1);
        i = i + 1;
        assert(c.extras@.subrange(0, i as int).drop_last() =~= c.extras@.subrange(0, i - 1));
        assert(out@ =~= mid + extras_encoding(c.extras@.subrange(0, i as int)));
    }
    assert(c.extras@.subrange(0, i as int) =~= c.extras@);
    append_spec(&mut out, &c.home);
    assert(out@ =~= collection_encoding(*c));
    out
}

impl MountCollection {
    /// The fingerprint the authorization table keys this collection by.
    pub fn hash(&self) -> (r: u64)
        ensures
            r == collection_fingerprint(*self),
    {
        let bytes = encode_collection(self);
        let d = sha256(bytes.as_slice());
        ((d[0] as u64) << 56u64) | ((d[1] as u64) << 48u64) | ((d[2] as u64) << 40u64) | ((
        d[3] as u64) << 32u64) | ((d[4] as u64) << 24u64) | ((d[5] as u64) << 16u64) | ((
        d[6] as u64) << 8u64) | (d[7] as u64)
    }
}


/// The options joined by commas, as the mount data string.
pub fn join_flags(flags: &Vec<String>) -> (r: String)
    ensures
        r@ == join_comma(string_views(flags@)),
{
    let mut out = String::new();
    let mut i: usize = 0;
    proof {
        reveal_strlit(",");
        assert(string_views(flags@.subrange(0, 0)) =~= Seq::<Seq<char>>::empty());
    }
    while i < flags.len()
        invariant
            i <= flags@.len(),
            out@ == join_comma(string_views(flags@.subrange(0, i as int))),
            ","@ == seq![','],
        decreases flags@.len() - i,
    {
        let ghost before = out@;
        if i > 0 {
            out.append(",");
        }
        out.append(flags[i].as_str());
        i = i + 1;
        proof {
            let v = string_views(flags@.subrange(0, i as int));
            assert(v.drop_last() =~= string_views(flags@.subrange(0, i - 1)));
            assert(v.last() == flags@[i - 1]@);
            if i == 1 {
                assert(v =~= seq![flags@[0]@]);
            }
            assert(out@ =~= join_comma(v));
        }
    }
    assert(flags@.subrange(0, i as int) =~= flags@);
    out
}

fn request_for(m: &MountSpec, target: &str) -> (r: MountRequest)
    ensures
        request_matches(r, *m, target@),
{
    MountRequest {
        fstype: m.fstype.clone(),
        data: join_flags(&m.flags),
        source: m.device.clone(),
        target: target.to_owned(),
    }
}

/// The mount operations of a collection in order: each extra mount at its
/// target, then the home mount at `home_dir`.
pub fn mount_requests(c: &MountCollection, home_dir: &str) -> (r: Vec<MountRequest>)
    ensures
        r@.len() == c.extras@.len() + 1,
        forall|i: int|
            0 <= i < c.extras@.len() ==> request_matches(
                #[trigger] r@[i],
                c.extras@[i].1,
                c.extras@[i].0@,
            ),
        request_matches(r@[c.extras@.len() as int], c.home, home_dir@),
{
    let mut out: Vec<MountRequest> = Vec::new();
    let mut i: usize = 0;
    while i < c.extras.len()
        invariant
            i <= c.extras@.len(),
            out@.len() == i,
            forall|j: int|
                0 <= j < i ==> request_matches(#[trigger] out@[j], c.extras@[j].1, c.extras@[j].0@),
        decreases c.extras@.len() - i,
    {
        out.push(request_for(&c.extras[i].1, c.extras[i].0.as_str()));
        i = i + 1;
    }
    out.push(request_for(&c.home, home_dir));
    out
}

impl MountRequest {
    /// Whether the request is a type-less mount that names only source and target.
    pub fn is_bind(&self) -> (r: bool)
        ensures
            r == (self.fstype@.len() == 0),
    {
        self.fstype.as_str().is_empty()
    }
}

/// What is at a mount target before mounting.
#[derive(Clone, Copy, Debug, PartialEq, Eq, Structural)]
pub enum TargetState {
    Missing,
    Directory,
    Other,
}

/// What to do with a mount target.
#[derive(Clone, Copy, Debug, PartialEq, Eq, Structural)]
pub enum TargetAction {
    /// Create the directory, then mount.
    Create,
    /// Mount on the directory that is there.
    Ready,
    /// Something other than a directory is there: the mount fails.
    Conflict,
}

/// A missing target is created, a directory is used, anything else fails.
pub fn prepare_target(state: TargetState) -> (r: TargetAction)
    ensures
        state == TargetState::Missing ==> r == TargetAction::Create,
        state == TargetState::Directory ==> r == TargetAction::Ready,
        state == TargetState::Other ==> r == TargetAction::Conflict,
{
    match state {
        TargetState::Missing => TargetAction::Create,
        TargetState::Directory => TargetAction::Ready,
        TargetState::Other => TargetAction::Conflict,
    }
}

/// The state of a run after a sequence of outcomes, each `true` for a
/// mount that succeeded: the handles held, whether the run failed, and the
/// handles given back for release. A failure gives back every handle held,
/// and nothing happens after it.
pub open spec fn run_after(outcomes: Seq<bool>) -> (nat, bool, nat)
    decreases outcomes.len(),
{
    if outcomes.len() == 0 {
        (0, false, 0)
    } else {
        let prev = run_after(outcomes.drop_last());
        if prev.1 {
            prev
        } else if outcomes.last() {
            (prev.0 + 1, false, prev.2)
        } else {
            (0, true, prev.2 + prev.0)
        }
    }
}

/// An all-or-nothing run over a sequence of mount requests. The caller
/// performs each request the run hands out and reports the outcome; the run
/// holds the handle of each mount made, and on the first failure gives back
/// every handle it held, so that dropping them undoes those mounts.
pub struct MountRun<H> {
    requests: Vec<MountRequest>,
    mounted: Vec<H>,
    failed: bool,
    outcomes: Ghost<Seq<bool>>,
    released: Ghost<nat>,
}

impl<H> MountRun<H> {
    pub closed spec fn requests(&self) -> Seq<MountRequest> {
        self.requests@
    }

    /// The handles of the mounts made and held.
    pub closed spec fn mounted(&self) -> Seq<H> {
        self.mounted@
    }

    pub closed spec fn failed(&self) -> bool {
        self.failed
    }

    /// The outcomes reported so far.
    pub closed spec fn outcomes(&self) -> Seq<bool> {
        self.outcomes@
    }

    /// How many handles the run has given back for release.
    pub closed spec fn released(&self) -> nat {
        self.released@
    }

    pub closed spec fn wf(&self) -> bool {
        &&& run_after(self.outcomes@) == (self.mounted@.len(), self.failed, self.released@)
        &&& self.mounted@.len() <= self.requests@.len()
        &&& !self.failed ==> self.outcomes@.len() == self.mounted@.len()
    }

    /// The state of a well-formed run is the one its outcomes lead to.
    pub proof fn lemma_progress(&self)
        requires
            self.wf(),
        ensures
            run_after(self.outcomes()) == (self.mounted().len(), self.failed(), self.released()),
            self.mounted().len() <= self.requests().len(),
    {
    }

    /// A run over `requests` with nothing mounted yet.
    pub fn new(requests: Vec<MountRequest>) -> (r: MountRun<H>)
        ensures
            r.wf(),
            r.requests() == requests@,
            r.outcomes() == Seq::<bool>::empty(),
            r.mounted() == Seq::<H>::empty(),
            !r.failed(),
    {
        MountRun {
            requests,
            mounted: Vec::new(),
            failed: false,
            outcomes: Ghost(Seq::empty()),
            released: Ghost(0),
        }
    }

    /// The request to perform next: the first one not yet mounted, unless
    /// the run failed or is complete.
    pub fn next_request(&self) -> (r: Option<&MountRequest>)
        requires
            self.wf(),
        ensures
            !self.failed() && self.mounted().len() < self.requests().len() ==> r == Some(
                &self.requests()[self.mounted().len() as int],
            ),
            self.failed() || self.mounted().len() == self.requests().len() ==> r is None,
    {
        if !self.failed && self.mounted.len() < self.requests.len() {
            Some(&self.requests[self.mounted.len()])
        } else {
            None
        }
    }

    /// Records that the next request was mounted, with its handle.
    pub fn record_mounted(&mut self, handle: H)
        requires
            old(self).wf(),
            !old(self).failed(),
            old(self).mounted().len() < old(self).requests().len(),
        ensures
            final(self).wf(),
            final(self).requests() == old(self).requests(),
            final(self).mounted() == old(self).mounted().push(handle),
            !final(self).failed(),
            final(self).outcomes() == old(self).outcomes().push(true),
            final(self).released() == old(self).released(),
    {
        self.mounted.push(handle);
        let ghost prev = self.outcomes@;
        self.outcomes = Ghost(self.outcomes@.push(true));
        assert(self.outcomes@.drop_last() =~= prev);
    }

    /// Records that the next request failed. The run fails, and gives back
    /// every handle it held, in mount order, for release.
    pub fn record_failure(&mut self) -> (r: Vec<H>)
        requires
            old(self).wf(),
            !old(self).failed(),
            old(self).mounted().len() < old(self).requests().len(),
        ensures
            final(self).wf(),
            final(self).requests() == old(self).requests(),
            r@ == old(self).mounted(),
            final(self).mounted() == Seq::<H>::empty(),
            final(self).failed(),
            final(self).outcomes() == old(self).outcomes().push(false),
            final(self).released() == old(self).released() + old(self).mounted().len(),
    {
        let mut released: Vec<H> = Vec::new();
        std::mem::swap(&mut released, &mut self.mounted);
        self.failed = true;
        let ghost prev = self.outcomes@;
        self.outcomes = Ghost(self.outcomes@.push(false));
        self.released = Ghost(self.released@ + released@.len());
        assert(self.outcomes@.drop_last() =~= prev);
        released
    }

    /// Whether every request was mounted.
    pub fn is_complete(&self) -> (r: bool)
        requires
            self.wf(),
        ensures
            r == (!self.failed() && self.mounted().len() == self.requests().len()),
    {
        !self.failed && self.mounted.len() == self.requests.len()
    }

    /// The handles of a run that mounted everything; none for a run that failed.
    pub fn into_mounts(self) -> (r: Vec<H>)
        requires
            self.wf(),
        ensures
            self.failed() ==> r@.len() == 0,
            !self.failed() ==> r@ == self.mounted(),
    {
        if self.failed {
            Vec::new()
        } else {
            self.mounted
        }
    }
}

/// `n` successful outcomes.
pub open spec fn successes(n: nat) -> Seq<bool> {
    Seq::new(n, |i: int| true)
}

proof fn lemma_successes(n: nat)
    ensures
        run_after(successes(n)) == (n, false, 0nat),
    decreases n,
{
    if n > 0 {
        lemma_successes((n - 1) as nat);
        assert(successes(n).drop_last() =~= successes((n - 1) as nat));
    }
}

/// Where the `n`th mount of a run fails after the ones before it succeeded,
/// the run holds no mount, has failed, and has given back exactly the
/// `n - 1` handles mounted before, for release.
pub proof fn lemma_failure_releases_earlier(n: nat)
    requires
        n >= 1,
    ensures
        run_after(successes((n - 1) as nat).push(false)) == (0nat, true, (n - 1) as nat),
{
    lemma_successes((n - 1) as nat);
    assert(successes((n - 1) as nat).push(false).drop_last() =~= successes((n - 1) as nat));
}

} // verus!
