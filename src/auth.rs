//! The authorization table: which mount-collection fingerprints each user
//! may apply. Anything not granted is denied.
use vstd::prelude::*;
use crate::status::BrokerError;

verus! {

impl Default for MountAuth {
    /// The table of a missing file: nothing is authorized.
    fn default() -> (r: MountAuth)
        ensures
            r.wf(),
            r.grants() == Set::<(Seq<char>, u64)>::empty(),
    {
        MountAuth::empty()
    }
}

/// One user's granted fingerprints.
struct UserGrants {
    username: String,
    hashes: Vec<u64>,
}

/// The authorization table, keyed by user name.
pub struct MountAuth {
    authorizations: Vec<UserGrants>,
}

/// The grants that granting each pair of `ops` in order adds to `g`.
pub open spec fn grants_after(g: Set<(Seq<char>, u64)>, ops: Seq<(Seq<char>, u64)>) -> Set<
    (Seq<char>, u64),
>
    decreases ops.len(),
{
    if ops.len() == 0 {
        g
    } else {
        grants_after(g, ops.drop_last()).insert(ops.last())
    }
}

/// Whether a vector of fingerprints holds `h`.
fn holds_hash(v: &Vec<u64>, h: u64) -> (r: bool)
    ensures
        r == v@.contains(h),
{
    let mut i: usize = 0;
    while i < v.len()
        invariant
            i <= v@.len(),
            forall|j: int| 0 <= j < i ==> v@[j] != h,
        decreases v@.len() - i,
    {
        if v[i] == h {
            assert(v@[i as int] == h);
            return true;
        }
        i = i + 1;
    }
    false
}

fn copy_hashes(v: &Vec<u64>) -> (r: Vec<u64>)
    ensures
        r@ == v@,
{
    let mut r: Vec<u64> = Vec::new();
    let mut i: usize = 0;
    while i < v.len()
        invariant
            i <= v@.len(),
            r@ == v@.subrange(0, i as int),
        decreases v@.len() - i,
    {
        r.push(v[i]);
        i = i + 1;
        assert(r@ =~= v@.subrange(0, i as int));
    }
    assert(r@ =~= v@);
    r
}

impl MountAuth {
    /// The (user name, fingerprint) pairs granted.
    pub closed spec fn grants(&self) -> Set<(Seq<char>, u64)> {
        Set::new(
            |p: (Seq<char>, u64)|
                exists|i: int|
                    0 <= i < self.authorizations@.len() && #[trigger] self.authorizations@[i].username@
                        == p.0 && self.authorizations@[i].hashes@.contains(p.1),
        )
    }

    pub closed spec fn wf(&self) -> bool {
        forall|i: int, j: int|
            0 <= i < j < self.authorizations@.len() ==> #[trigger] self.authorizations@[i].username@
                != #[trigger] self.authorizations@[j].username@
    }

    /// An empty table: nothing is authorized.
    pub fn empty() -> (r: MountAuth)
        ensures
            r.wf(),
            r.grants() == Set::<(Seq<char>, u64)>::empty(),
    {
        let r = MountAuth { authorizations: Vec::new() };
        assert(r.grants() =~= Set::<(Seq<char>, u64)>::empty());
        r
    }

    fn find_user(&self, username: &String) -> (r: Option<usize>)
        ensures
            r matches Some(i) ==> i < self.authorizations@.len()
                && self.authorizations@[i as int].username@ == username@,
            r is None ==> forall|j: int|
                0 <= j < self.authorizations@.len() ==> #[trigger] self.authorizations@[j].username@
                    != username@,
    {
        let mut i: usize = 0;
        while i < self.authorizations.len()
            invariant
                i <= self.authorizations@.len(),
                forall|j: int|
                    0 <= j < i ==> #[trigger] self.authorizations@[j].username@ != username@,
            decreases self.authorizations@.len() - i,
        {
            if self.authorizations[i].username == *username {
                return Some(i);
            }
            i = i + 1;
        }
        None
    }

    /// Grants fingerprint `hash` to `username`.
    pub fn add_authorization(&mut self, username: String, hash: u64)
        requires
            old(self).wf(),
        ensures
            final(self).wf(),
            final(self).grants() == old(self).grants().insert((username@, hash)),
    {
        let ghost old_auth = self.authorizations@;
        let ghost old_grants = self.grants();
        let ghost u = username@;
        match self.find_user(&username) {
            Some(i) => {
                let mut entry = self.authorizations.remove(i);
                entry.hashes.push(hash);
                let ghost e = entry;
                self.authorizations.push(entry);
                let ghost mid = old_auth.remove(i as int);
                assert(self.authorizations@ == mid.push(e));
                proof {
                    assert forall|a: int, b: int|
                        0 <= a < b < self.authorizations@.len() implies #[trigger] self.authorizations@[a].username@
                        != #[trigger] self.authorizations@[b].username@ by {
                        let oa = if a < i { a } else { a + 1 };
                        let ob = if b == mid.len() { i as int } else if b < i { b } else { b + 1 };
                        assert(self.authorizations@[a] == old_auth[oa]);
                        assert(self.authorizations@[b].username@ == old_auth[ob].username@);
                    }
                    assert forall|p: (Seq<char>, u64)| #[trigger] self.grants().contains(p) <==> old_grants.insert((u, hash)).contains(p) by {
                        if self.grants().contains(p) {
                            let j = choose|j: int|
                                0 <= j < self.authorizations@.len() && #[trigger] self.authorizations@[j].username@
                                    == p.0 && self.authorizations@[j].hashes@.contains(p.1);
                            if j == mid.len() {
                                if p.1 != hash {
                                    let k = choose|k: int| 0 <= k < e.hashes@.len() && e.hashes@[k] == p.1;
                                    assert(old_auth[i as int].hashes@[k] == p.1);
                                    assert(old_grants.contains(p));
                                }
                            } else {
                                let oj = if j < i { j } else { j + 1 };
                                assert(self.authorizations@[j] == old_auth[oj]);
                                assert(old_grants.contains(p));
                            }
                        }
                        if old_grants.insert((u, hash)).contains(p) {
                            let n = mid.len() as int;
                            if p == (u, hash) {
                                assert(e.hashes@[e.hashes@.len() - 1] == hash);
                                assert(self.authorizations@[n].username@ == p.0);
                            } else {
                                let j = choose|j: int|
                                    0 <= j < old_auth.len() && #[trigger] old_auth[j].username@
                                        == p.0 && old_auth[j].hashes@.contains(p.1);
                                if j == i {
                                    let k = choose|k: int| 0 <= k < old_auth[j].hashes@.len() && old_auth[j].hashes@[k] == p.1;
                                    assert(e.hashes@[k] == p.1);
                                    assert(self.authorizations@[n].username@ == p.0);
                                } else {
                                    let nj = if j < i { j } else { j - 1 };
                                    assert(self.authorizations@[nj] == old_auth[j]);
                                }
                            }
                        }
                    }
                    assert(self.grants() =~= old_grants.insert((u, hash)));
                }
            },
            None => {
                let mut hashes: Vec<u64> = Vec::new();
                hashes.push(hash);
                self.authorizations.push(UserGrants { username, hashes });
                proof {
                    let n = old_auth.len() as int;
                    assert forall|p: (Seq<char>, u64)| #[trigger] self.grants().contains(p) <==> old_grants.insert((u, hash)).contains(p) by {
                        if self.grants().contains(p) {
                            let j = choose|j: int|
                                0 <= j < self.authorizations@.len() && #[trigger] self.authorizations@[j].username@
                                    == p.0 && self.authorizations@[j].hashes@.contains(p.1);
                            if j < n {
                                assert(self.authorizations@[j] == old_auth[j]);
                                assert(old_grants.contains(p));
                            } else {
                                assert(self.authorizations@[n].hashes@ == seq![hash]);
                                assert(p.1 == hash);
                            }
                        }
                        if old_grants.insert((u, hash)).contains(p) {
                            if p == (u, hash) {
                                assert(self.authorizations@[n].hashes@[0] == hash);
                                assert(self.authorizations@[n].username@ == p.0);
                            } else {
                                let j = choose|j: int|
                                    0 <= j < old_auth.len() && #[trigger] old_auth[j].username@
                                        == p.0 && old_auth[j].hashes@.contains(p.1);
                                assert(self.authorizations@[j] == old_auth[j]);
                            }
                        }
                    }
                    assert(self.grants() =~= old_grants.insert((u, hash)));
                }
            },
        }
    }

    /// Whether fingerprint `hash` is granted to `username`.
    pub fn authorized(&self, username: &str, hash: u64) -> (r: bool)
        requires
            self.wf(),
        ensures
            r == self.grants().contains((username@, hash)),
    {
        let name = username.to_owned();
        match self.find_user(&name) {
            Some(i) => {
                let r = holds_hash(&self.authorizations[i].hashes, hash);
                proof {
                    if self.grants().contains((username@, hash)) {
                        let j = choose|j: int|
                            0 <= j < self.authorizations@.len()
                                && #[trigger] self.authorizations@[j].username@ == username@
                                && self.authorizations@[j].hashes@.contains(hash);
                        if j != i {
                            let (lo, hi) = if j < i { (j, i as int) } else { (i as int, j) };
                            assert(self.authorizations@[lo].username@ != self.authorizations@[hi].username@);
                        }
                    }
                    if r {
                        assert(self.authorizations@[i as int].username@ == username@);
                    }
                }
                r
            },
            None => false,
        }
    }

    /// A copy of the table.
    pub fn duplicate(&self) -> (r: MountAuth)
        requires
            self.wf(),
        ensures
            r.wf(),
            r.grants() == self.grants(),
    {
        let mut out: Vec<UserGrants> = Vec::new();
        let mut i: usize = 0;
        while i < self.authorizations.len()
            invariant
                i <= self.authorizations@.len(),
                out@.len() == i,
                forall|j: int|
                    0 <= j < i ==> (#[trigger] out@[j]).username@ == self.authorizations@[j].username@
                        && out@[j].hashes@ == self.authorizations@[j].hashes@,
            decreases self.authorizations@.len() - i,
        {
            let entry = UserGrants {
                username: self.authorizations[i].username.clone(),
                hashes: copy_hashes(&self.authorizations[i].hashes),
            };
            out.push(entry);
            i = i + 1;
        }
        let r = MountAuth { authorizations: out };
        proof {
            assert forall|a: int, b: int|
                0 <= a < b < r.authorizations@.len() implies #[trigger] r.authorizations@[a].username@
                != #[trigger] r.authorizations@[b].username@ by {
                assert(self.authorizations@[a].username@ != self.authorizations@[b].username@);
            }
            assert forall|p: (Seq<char>, u64)| #[trigger] r.grants().contains(p) <==> self.grants().contains(p) by {
                if r.grants().contains(p) {
                    let j = choose|j: int|
                        0 <= j < r.authorizations@.len() && #[trigger] r.authorizations@[j].username@
                            == p.0 && r.authorizations@[j].hashes@.contains(p.1);
                    assert(self.authorizations@[j].username@ == p.0);
                }
                if self.grants().contains(p) {
                    let j = choose|j: int|
                        0 <= j < self.authorizations@.len() && #[trigger] self.authorizations@[j].username@
                            == p.0 && self.authorizations@[j].hashes@.contains(p.1);
                    assert(r.authorizations@[j].username@ == p.0);
                }
            }
            assert(r.grants() =~= self.grants());
        }
        r
    }

    /// The table that granting `hash` to `username` would give, to be
    /// written out before it replaces this one.
    pub fn with_authorization(&self, username: String, hash: u64) -> (r: MountAuth)
        requires
            self.wf(),
        ensures
            r.wf(),
            r.grants() == self.grants().insert((username@, hash)),
    {
        let mut r = self.duplicate();
        r.add_authorization(username, hash);
        r
    }

    /// Ends an authorization: the candidate table replaces this one where it
    /// was written out durably; otherwise this table stays as it was and the
    /// failure is reported.
    pub fn commit_authorization(&mut self, candidate: MountAuth, written: bool) -> (r: Result<
        (),
        BrokerError,
    >)
        requires
            old(self).wf(),
            candidate.wf(),
        ensures
            final(self).wf(),
            written ==> r is Ok && final(self).grants() == candidate.grants(),
            !written ==> r == Err::<(), BrokerError>(BrokerError::Persistence) && final(self).grants()
                == old(self).grants(),
    {
        if written {
            *self = candidate;
            Ok(())
        } else {
            Err(BrokerError::Persistence)
        }
    }

    /// The table's rows: each user name with the fingerprints granted to it.
    pub fn entries(&self) -> (r: Vec<(String, Vec<u64>)>)
        requires
            self.wf(),
        ensures
            forall|p: (Seq<char>, u64)|
                self.grants().contains(p) <==> exists|i: int|
                    0 <= i < r@.len() && (#[trigger] r@[i]).0@ == p.0 && r@[i].1@.contains(p.1),
            forall|i: int, j: int|
                0 <= i < j < r@.len() ==> (#[trigger] r@[i]).0@ != (#[trigger] r@[j]).0@,
    {
        let mut out: Vec<(String, Vec<u64>)> = Vec::new();
        let mut i: usize = 0;
        while i < self.authorizations.len()
            invariant
                i <= self.authorizations@.len(),
                out@.len() == i,
                forall|j: int|
                    0 <= j < i ==> (#[trigger] out@[j]).0@ == self.authorizations@[j].username@
                        && out@[j].1@ == self.authorizations@[j].hashes@,
            decreases self.authorizations@.len() - i,
        {
            out.push(
                (self.authorizations[i].username.clone(), copy_hashes(&self.authorizations[i].hashes)),
            );
            i = i + 1;
        }
        proof {
            assert forall|p: (Seq<char>, u64)|
                self.grants().contains(p) <==> exists|i: int|
                    0 <= i < out@.len() && (#[trigger] out@[i]).0@ == p.0 && out@[i].1@.contains(p.1) by {
                if self.grants().contains(p) {
                    let j = choose|j: int|
                        0 <= j < self.authorizations@.len() && #[trigger] self.authorizations@[j].username@
                            == p.0 && self.authorizations@[j].hashes@.contains(p.1);
                    assert(out@[j].0@ == p.0);
                }
                if exists|i: int|
                    0 <= i < out@.len() && (#[trigger] out@[i]).0@ == p.0 && out@[i].1@.contains(p.1) {
                    let j = choose|j: int|
                        0 <= j < out@.len() && (#[trigger] out@[j]).0@ == p.0 && out@[j].1@.contains(p.1);
                    assert(self.authorizations@[j].username@ == p.0);
                }
            }
            assert forall|a: int, b: int| 0 <= a < b < out@.len() implies (#[trigger] out@[a]).0@ != (#[trigger] out@[b]).0@ by {
                assert(self.authorizations@[a].username@ != self.authorizations@[b].username@);
            }
        }
        out
    }
}


/// Granting the pairs of `ops` in order to a table authorizes exactly
/// what it authorized before and those pairs: a grant is never lost to
/// later grants, and from an empty table nothing else is authorized.
pub proof fn lemma_grants_after(g: Set<(Seq<char>, u64)>, ops: Seq<(Seq<char>, u64)>)
    ensures
        forall|p: (Seq<char>, u64)|
            #[trigger] grants_after(g, ops).contains(p) <==> g.contains(p) || ops.contains(p),
    decreases ops.len(),
{
    if ops.len() > 0 {
        lemma_grants_after(g, ops.drop_last());
        let prev = grants_after(g, ops.drop_last());
        assert(grants_after(g, ops) == prev.insert(ops.last()));
        assert forall|p: (Seq<char>, u64)|
            #[trigger] grants_after(g, ops).contains(p) <==> g.contains(p) || ops.contains(p) by {
            if ops.contains(p) && p != ops.last() {
                let k = choose|k: int| 0 <= k < ops.len() && ops[k] == p;
                assert(ops.drop_last()[k] == p);
            }
            if prev.contains(p) && !g.contains(p) {
                assert(ops.drop_last().contains(p));
                let k = choose|k: int| 0 <= k < ops.drop_last().len() && ops.drop_last()[k] == p;
                assert(ops[k] == p);
            }
            if p == ops.last() {
                assert(ops[ops.len() - 1] == p);
            }
        }
    }
}

/// An authorization in two steps, the candidate table and its commit: once
/// written, the pair is authorized and nothing else changes; where the
/// write failed, every pair is authorized exactly as before.
pub proof fn lemma_authorize_commit(
    before: Set<(Seq<char>, u64)>,
    candidate: Set<(Seq<char>, u64)>,
    after: Set<(Seq<char>, u64)>,
    username: Seq<char>,
    hash: u64,
    written: bool,
)
    requires
        candidate == before.insert((username, hash)),
        written ==> after == candidate,
        !written ==> after == before,
    ensures
        written ==> after.contains((username, hash)),
        written ==> forall|p: (Seq<char>, u64)|
            p != (username, hash) ==> (#[trigger] after.contains(p) <==> before.contains(p)),
        !written ==> forall|p: (Seq<char>, u64)| #[trigger] after.contains(p) <==> before.contains(p),
{
}

} // verus!
