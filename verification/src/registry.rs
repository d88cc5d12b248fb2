//! The server-side registry: one record per registered public identity,
//! holding the identity's commitment and the shares received this epoch.
//! Registration and every message are verified against the commitment
//! scheme; one share past the epoch limit triggers exact recovery of the
//! secret key and eviction of the identity.
//!
//! The registry is modelled as a map from public identity bytes to a
//! record view; every operation states its exact effect on that map.
use vstd::prelude::*;

verus! {

use crate::errors::{MessageOutcome, RlnError};
use crate::field::{in_field, Scalar};
use crate::interp::{distinct_points, has_point, lagrange_at_zero, points_in_field, recover_key,
    shares_model, values_in_field};
use crate::kzg::{derive_pubkey_bytes, kzg_check, kzg_ok, pk_bytes_of, reg_ok,
    registration_check, OpeningProof, PolyCommitment, PublicParams};

/// The mathematical content of one registered identity's record.
pub struct RecordView {
    /// The commitment the identity registered with.
    pub comm: PolyCommitment,
    /// The shares received so far, in order of arrival.
    pub shares: Seq<(int, int)>,
}

/// The value recovery returns for a record and one further message: the
/// Lagrange interpolation at zero of the stored shares with the new one
/// appended.
pub open spec fn recovered_of(rec: RecordView, point: int, value: int) -> int {
    lagrange_at_zero(rec.shares.push((point, value)))
}

struct Entry {
    key: Vec<u8>,
    comm: PolyCommitment,
    shares: Vec<(Scalar, Scalar)>,
}

impl Entry {
    spec fn entry_view(self) -> (Seq<u8>, RecordView) {
        (self.key@, RecordView { comm: self.comm, shares: shares_model(self.shares@) })
    }
}

/// No two entries carry the same key.
spec fn distinct_keys(s: Seq<(Seq<u8>, RecordView)>) -> bool {
    forall|a: int, b: int| 0 <= a < b < s.len() ==> (#[trigger] s[a]).0 != (#[trigger] s[b]).0
}

/// The association sequence read as a map, later entries taking
/// precedence (with distinct keys, order does not matter).
spec fn as_map(s: Seq<(Seq<u8>, RecordView)>) -> Map<Seq<u8>, RecordView>
    decreases s.len(),
{
    if s.len() == 0 {
        Map::empty()
    } else {
        as_map(s.drop_last()).insert(s.last().0, s.last().1)
    }
}

proof fn lemma_as_map_contains(s: Seq<(Seq<u8>, RecordView)>, k: Seq<u8>)
    ensures
        as_map(s).contains_key(k) <==> exists|i: int|
            0 <= i < s.len() && (#[trigger] s[i]).0 == k,
    decreases s.len(),
{
    if s.len() == 0 {
    } else {
        lemma_as_map_contains(s.drop_last(), k);
        if s.last().0 == k {
            assert(s[s.len() - 1].0 == k);
        } else {
            if as_map(s).contains_key(k) {
                let i = choose|i: int|
                    0 <= i < s.drop_last().len() && (#[trigger] s.drop_last()[i]).0 == k;
                assert(s[i].0 == k);
            }
            if exists|i: int| 0 <= i < s.len() && (#[trigger] s[i]).0 == k {
                let i = choose|i: int| 0 <= i < s.len() && (#[trigger] s[i]).0 == k;
                assert(s.drop_last()[i].0 == k);
            }
        }
    }
}

proof fn lemma_as_map_index(s: Seq<(Seq<u8>, RecordView)>, k: Seq<u8>, i: int)
    requires
        distinct_keys(s),
        0 <= i < s.len(),
        s[i].0 == k,
    ensures
        as_map(s).contains_key(k),
        as_map(s)[k] == s[i].1,
    decreases s.len(),
{
    if i == s.len() - 1 {
    } else {
        assert(s[s.len() - 1].0 != k);
        assert(distinct_keys(s.drop_last()));
        assert(s.drop_last()[i] == s[i]);
        lemma_as_map_index(s.drop_last(), k, i);
    }
}

proof fn lemma_as_map_update(s: Seq<(Seq<u8>, RecordView)>, i: int, e: (Seq<u8>, RecordView))
    requires
        distinct_keys(s),
        0 <= i < s.len(),
        e.0 == s[i].0,
    ensures
        as_map(s.update(i, e)) == as_map(s).insert(e.0, e.1),
    decreases s.len(),
{
    let t = s.update(i, e);
    if i == s.len() - 1 {
        assert(t.drop_last() =~= s.drop_last());
        assert(t.last() == e);
        assert(as_map(t) =~= as_map(s).insert(e.0, e.1));
    } else {
        assert(t.drop_last() =~= s.drop_last().update(i, e));
        assert(distinct_keys(s.drop_last()));
        lemma_as_map_update(s.drop_last(), i, e);
        assert(t.last() == s.last());
        assert(s[s.len() - 1].0 != e.0);
        assert(as_map(t) =~= as_map(s).insert(e.0, e.1));
    }
}

proof fn lemma_as_map_remove(s: Seq<(Seq<u8>, RecordView)>, i: int)
    requires
        distinct_keys(s),
        0 <= i < s.len(),
    ensures
        as_map(s.remove(i)) == as_map(s).remove(s[i].0),
    decreases s.len(),
{
    let k = s[i].0;
    let t = s.remove(i);
    if i == s.len() - 1 {
        assert(t =~= s.drop_last());
        lemma_as_map_contains(s.drop_last(), k);
        assert(forall|j: int| 0 <= j < s.len() - 1 ==> (#[trigger] s[j]).0 != k);
        assert(forall|j: int|
            0 <= j < s.drop_last().len() ==> (#[trigger] s.drop_last()[j]).0 != k);
        assert(!as_map(s.drop_last()).contains_key(k));
        assert(as_map(t) =~= as_map(s).remove(k));
    } else {
        assert(t.drop_last() =~= s.drop_last().remove(i));
        assert(distinct_keys(s.drop_last()));
        assert(s.drop_last()[i] == s[i]);
        lemma_as_map_remove(s.drop_last(), i);
        assert(t.last() == s.last());
        assert(s[s.len() - 1].0 != k);
        assert(as_map(t) =~= as_map(s).remove(k));
    }
}

/// A successful registration is immediately visible: after the registry's
/// map gains the key, a membership check on that key succeeds.
pub proof fn lemma_register_then_registered(
    m: Map<Seq<u8>, RecordView>,
    k: Seq<u8>,
    rec: RecordView,
)
    ensures
        m.insert(k, rec).contains_key(k),
{
}

/// Slashing is final: once an identity's record is removed, the key is
/// unknown, so a further message for the same identity is rejected.
pub proof fn lemma_slashed_then_unknown(m: Map<Seq<u8>, RecordView>, k: Seq<u8>)
    ensures
        !m.remove(k).contains_key(k),
{
}

/// Identities are independent: registering, updating or evicting one key
/// leaves the presence and record of every other key unchanged.
pub proof fn lemma_other_identities_unaffected(
    m: Map<Seq<u8>, RecordView>,
    k1: Seq<u8>,
    k2: Seq<u8>,
    rec: RecordView,
)
    requires
        k1 != k2,
    ensures
        m.insert(k1, rec).contains_key(k2) == m.contains_key(k2),
        m.remove(k1).contains_key(k2) == m.contains_key(k2),
        m.contains_key(k2) ==> m.insert(k1, rec)[k2] == m[k2],
        m.contains_key(k2) ==> m.remove(k1)[k2] == m[k2],
{
}

/// Compares two byte strings.
fn bytes_eq(a: &Vec<u8>, b: &Vec<u8>) -> (r: bool)
    ensures
        r == (a@ == b@),
{
    if a.len() != b.len() {
        return false;
    }
    let n = a.len();
    let mut i: usize = 0;
    while i < n
        invariant
            i <= n,
            n == a@.len(),
            n == b@.len(),
            forall|j: int| 0 <= j < i ==> a@[j] == b@[j],
        decreases n - i,
    {
        if a[i] != b[i] {
            return false;
        }
        i += 1;
    }
    proof {
        assert(a@ =~= b@);
    }
    true
}

/// Reports whether one of the recorded shares uses the given point.
fn contains_point(shares: &Vec<(Scalar, Scalar)>, point: &Scalar) -> (r: bool)
    ensures
        r == has_point(shares_model(shares@), point@),
{
    let ghost sh = shares_model(shares@);
    let n = shares.len();
    let mut i: usize = 0;
    while i < n
        invariant
            i <= n,
            n == shares@.len(),
            sh == shares_model(shares@),
            forall|j: int| 0 <= j < i ==> (#[trigger] sh[j]).0 != point@,
        decreases n - i,
    {
        if shares[i].0.eq_value(point) {
            proof {
                assert(sh[i as int].0 == point@);
            }
            return true;
        }
        i += 1;
    }
    false
}

/// The per-epoch registry of registered identities.
pub struct Registry {
    limit: usize,
    params: PublicParams,
    entries: Vec<Entry>,
}

impl View for Registry {
    type V = Map<Seq<u8>, RecordView>;

    closed spec fn view(&self) -> Map<Seq<u8>, RecordView> {
        as_map(self.entries_view())
    }
}

impl Registry {
    spec fn entries_view(self) -> Seq<(Seq<u8>, RecordView)> {
        self.entries@.map_values(|e: Entry| e.entry_view())
    }

    /// The number of distinct messages one identity may send per epoch
    /// before its secret key is exposed.
    pub closed spec fn limit_spec(self) -> int {
        self.limit as int
    }

    /// The shared public parameters this registry verifies against.
    pub closed spec fn params_spec(self) -> PublicParams {
        self.params
    }

    /// Internal consistency: keys are unique, and every record holds at
    /// most `limit` shares with pairwise distinct, canonical points.
    pub closed spec fn wf(self) -> bool {
        &&& distinct_keys(self.entries_view())
        &&& forall|i: int| 0 <= i < self.entries_view().len() ==> {
            let sh = (#[trigger] self.entries_view()[i]).1.shares;
            &&& sh.len() <= self.limit_spec()
            &&& distinct_points(sh)
            &&& points_in_field(sh)
            &&& values_in_field(sh)
        }
    }

    /// An empty registry for one epoch, bound to the shared public
    /// parameters.
    pub fn new(limit: usize, params: PublicParams) -> (r: Registry)
        ensures
            r.wf(),
            r@ == Map::<Seq<u8>, RecordView>::empty(),
            r.limit_spec() == limit as int,
            r.params_spec() == params,
    {
        let r = Registry { limit, params, entries: Vec::new() };
        proof {
            assert(r.entries_view() =~= Seq::<(Seq<u8>, RecordView)>::empty());
        }
        r
    }

    fn find_index(&self, pubkey: &Vec<u8>) -> (r: Option<usize>)
        ensures
            match r {
                Some(i) => i < self.entries_view().len() && self.entries_view()[i as int].0
                    == pubkey@,
                None => forall|j: int|
                    0 <= j < self.entries_view().len()
                        ==> (#[trigger] self.entries_view()[j]).0 != pubkey@,
            },
    {
        let n = self.entries.len();
        let mut i: usize = 0;
        while i < n
            invariant
                i <= n,
                n == self.entries@.len(),
                forall|j: int|
                    0 <= j < i ==> (#[trigger] self.entries_view()[j]).0 != pubkey@,
            decreases n - i,
        {
            if bytes_eq(&self.entries[i].key, pubkey) {
                proof {
                    assert(self.entries_view()[i as int].0 == pubkey@);
                }
                return Some(i);
            }
            i += 1;
        }
        None
    }

    /// Reports whether the public identity currently holds a record.
    pub fn is_registered(&self, pubkey: &Vec<u8>) -> (r: bool)
        ensures
            r == self@.contains_key(pubkey@),
    {
        proof {
            lemma_as_map_contains(self.entries_view(), pubkey@);
        }
        self.find_index(pubkey).is_some()
    }

    /// The number of shares recorded for the public identity, if it is
    /// registered.
    pub fn share_count(&self, pubkey: &Vec<u8>) -> (r: Option<usize>)
        requires
            self.wf(),
        ensures
            self@.contains_key(pubkey@)
                ==> (r matches Some(c) && c == self@[pubkey@].shares.len()),
            !self@.contains_key(pubkey@) ==> r is None,
    {
        proof {
            lemma_as_map_contains(self.entries_view(), pubkey@);
        }
        match self.find_index(pubkey) {
            None => None,
            Some(i) => {
                proof {
                    lemma_as_map_index(self.entries_view(), pubkey@, i as int);
                }
                Some(self.entries[i].shares.len())
            },
        }
    }

    /// The epoch limit this registry enforces.
    pub fn limit(&self) -> (r: usize)
        ensures
            r as int == self.limit_spec(),
    {
        self.limit
    }

    /// Registers a public identity: verifies, through the commitment
    /// scheme's pairing equation, that `commitment` opens at zero to the
    /// exponent of `pubkey`, and creates an empty record for it. An
    /// already-registered identity is rejected unchanged; a failed
    /// verification leaves the registry unchanged.
    pub fn register(
        &mut self,
        commitment: PolyCommitment,
        proof: &OpeningProof,
        pubkey: Vec<u8>,
    ) -> (r: Result<(), RlnError>)
        requires
            old(self).wf(),
        ensures
            final(self).wf(),
            final(self).limit_spec() == old(self).limit_spec(),
            final(self).params_spec() == old(self).params_spec(),
            r matches Err(RlnError::AlreadyRegistered) <==> old(self)@.contains_key(pubkey@),
            r is Ok <==> !old(self)@.contains_key(pubkey@) && reg_ok(
                old(self).params_spec(),
                commitment,
                *proof,
                pubkey@,
            ),
            r matches Err(RlnError::InvalidRegistrationProof) <==> !old(self)@.contains_key(
                pubkey@,
            ) && !reg_ok(old(self).params_spec(), commitment, *proof, pubkey@),
            r is Err ==> final(self)@ == old(self)@,
            r matches Err(e) ==> e == RlnError::AlreadyRegistered
                || e == RlnError::InvalidRegistrationProof,
            r is Ok ==> final(self)@ == old(self)@.insert(
                pubkey@,
                RecordView { comm: commitment, shares: Seq::empty() },
            ),
    {
        proof {
            lemma_as_map_contains(self.entries_view(), pubkey@);
        }
        match self.find_index(&pubkey) {
            Some(_) => Err(RlnError::AlreadyRegistered),
            None => {
                if !registration_check(&self.params, &commitment, proof, &pubkey) {
                    return Err(RlnError::InvalidRegistrationProof);
                }
                let ghost s0 = self.entries_view();
                let ghost kv = pubkey@;
                let ghost gc = commitment;
                let ghost rec = RecordView { comm: gc, shares: Seq::<(int, int)>::empty() };
                self.entries.push(Entry { key: pubkey, comm: commitment, shares: Vec::new() });
                proof {
                    assert(shares_model(Seq::<(Scalar, Scalar)>::empty()) =~= Seq::<(
                        int,
                        int,
                    )>::empty());
                    assert(self.entries_view() =~= s0.push((kv, rec)));
                    assert(self.entries_view().drop_last() =~= s0);
                    assert(self@ == as_map(s0).insert(kv, rec));
                    assert forall|a: int, b: int|
                        0 <= a < b < self.entries_view().len() implies
                        (#[trigger] self.entries_view()[a]).0
                            != (#[trigger] self.entries_view()[b]).0 by {
                        if b < s0.len() {
                            assert(s0[a].0 != s0[b].0);
                        } else {
                            assert(s0[a].0 != kv);
                        }
                    }
                }
                Ok(())
            },
        }
    }

    /// Accepts or rejects one message for a registered identity. The proof
    /// is verified against the stored commitment; a repeated evaluation
    /// point is rejected without being counted. An accepted share is
    /// appended; the share that passes the epoch limit triggers exact
    /// recovery of the secret key, a consistency check against the stored
    /// public identity, and eviction of the record.
    pub fn submit_message(
        &mut self,
        pubkey: &Vec<u8>,
        point: &Scalar,
        value: &Scalar,
        proof: &OpeningProof,
    ) -> (r: Result<MessageOutcome, RlnError>)
        requires
            old(self).wf(),
            in_field(point@),
            in_field(value@),
        ensures
            final(self).wf(),
            final(self).limit_spec() == old(self).limit_spec(),
            final(self).params_spec() == old(self).params_spec(),
            ({
                let m0 = old(self)@;
                let k = pubkey@;
                let known = m0.contains_key(k);
                let ok = kzg_ok(old(self).params_spec(), m0[k].comm, point@, value@, *proof);
                let dup = has_point(m0[k].shares, point@);
                let at_limit = m0[k].shares.len() == old(self).limit_spec();
                let v = recovered_of(m0[k], point@, value@);
                let key_match = pk_bytes_of(old(self).params_spec(), v) == k;
                &&& (r matches Err(RlnError::UnknownIdentity) <==> !known)
                &&& (r matches Err(RlnError::InvalidMessageProof) <==> known && !ok)
                &&& (r matches Err(RlnError::DuplicateSharePoint) <==> known && ok && dup)
                &&& (r matches Ok(MessageOutcome::Accepted) <==> known && ok && !dup && !at_limit)
                &&& (known && ok && !dup && at_limit && key_match ==> (r matches Ok(
                    MessageOutcome::Slashed(s),
                ) && s@ == v))
                &&& (r matches Ok(MessageOutcome::Slashed(s)) ==> known && ok && !dup && at_limit
                    && key_match && s@ == v && in_field(s@))
                &&& (r matches Err(RlnError::RecoveryMismatch) <==> known && ok && !dup && at_limit
                    && !key_match)
                &&& ((r matches Err(RlnError::UnknownIdentity) || r matches Err(
                    RlnError::InvalidMessageProof,
                ) || r matches Err(RlnError::DuplicateSharePoint)) ==> final(self)@ == m0)
                &&& (r matches Ok(MessageOutcome::Accepted) ==> final(self)@ == m0.insert(
                    k,
                    RecordView { comm: m0[k].comm, shares: m0[k].shares.push((point@, value@)) },
                ))
                &&& (r matches Ok(MessageOutcome::Slashed(s)) ==> final(self)@ == m0.remove(k))
                &&& (r matches Err(RlnError::RecoveryMismatch) ==> final(self)@ == m0.remove(k))
                &&& (r matches Err(e) ==> e == RlnError::UnknownIdentity
                    || e == RlnError::InvalidMessageProof || e == RlnError::DuplicateSharePoint
                    || e == RlnError::RecoveryMismatch)
            }),
    {
        proof {
            lemma_as_map_contains(self.entries_view(), pubkey@);
        }
        let idx = match self.find_index(pubkey) {
            None => {
                return Err(RlnError::UnknownIdentity);
            },
            Some(i) => i,
        };
        proof {
            lemma_as_map_index(self.entries_view(), pubkey@, idx as int);
        }
        if !kzg_check(&self.params, &self.entries[idx].comm, point, value, proof) {
            return Err(RlnError::InvalidMessageProof);
        }
        if contains_point(&self.entries[idx].shares, point) {
            return Err(RlnError::DuplicateSharePoint);
        }
        let ghost s0 = self.entries_view();
        let ghost kv = pubkey@;
        let ghost rec0 = s0[idx as int].1;
        let ghost rec1 = RecordView { comm: rec0.comm, shares: rec0.shares.push((point@, value@)) };
        let mut entry = self.entries.remove(idx);
        entry.shares.push((point.dup(), value.dup()));
        proof {
            assert(shares_model(entry.shares@) =~= rec1.shares);
            assert(entry.entry_view() == (kv, rec1));
        }
        if entry.shares.len() <= self.limit {
            let ghost eview = entry.entry_view();
            self.entries.insert(idx, entry);
            proof {
                assert(self.entries_view() =~= s0.update(idx as int, (kv, rec1)));
                lemma_as_map_update(s0, idx as int, (kv, rec1));
                assert forall|a: int, b: int|
                    0 <= a < b < rec1.shares.len() implies (#[trigger] rec1.shares[a]).0 != (
                #[trigger] rec1.shares[b]).0 by {
                    if b < rec0.shares.len() {
                        assert(rec0.shares[a].0 != rec0.shares[b].0);
                    } else {
                        assert(!has_point(rec0.shares, point@));
                        assert(rec0.shares[a].0 != point@);
                    }
                }
            }
            Ok(MessageOutcome::Accepted)
        } else {
            proof {
                assert(self.entries_view() =~= s0.remove(idx as int));
                lemma_as_map_remove(s0, idx as int);
                assert forall|a: int, b: int|
                    0 <= a < b < rec1.shares.len() implies (#[trigger] rec1.shares[a]).0 != (
                #[trigger] rec1.shares[b]).0 by {
                    if b < rec0.shares.len() {
                        assert(rec0.shares[a].0 != rec0.shares[b].0);
                    } else {
                        assert(!has_point(rec0.shares, point@));
                        assert(rec0.shares[a].0 != point@);
                    }
                }
                assert(distinct_points(shares_model(entry.shares@)));
            }
            match recover_key(&entry.shares) {
                Err(_) => {
                    proof {
                        assert(false);
                    }
                    Err(RlnError::SingularShareSet)
                },
                Ok(recovered) => {
                    let derived = derive_pubkey_bytes(&self.params, &recovered);
                    if bytes_eq(&derived, pubkey) {
                        Ok(MessageOutcome::Slashed(recovered))
                    } else {
                        Err(RlnError::RecoveryMismatch)
                    }
                },
            }
        }
    }

    /// Clears every record: the external epoch-reset trigger. No
    /// verification is performed.
    pub fn reset_epoch(&mut self)
        ensures
            final(self).wf(),
            final(self).limit_spec() == old(self).limit_spec(),
            final(self).params_spec() == old(self).params_spec(),
            final(self)@ == Map::<Seq<u8>, RecordView>::empty(),
    {
        self.entries.clear();
        proof {
            assert(self.entries_view() =~= Seq::<(Seq<u8>, RecordView)>::empty());
        }
    }
}

} // verus!
