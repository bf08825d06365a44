//! The vote store: writing batches of votes, deriving their events, and
//! pruning old sessions.
use vstd::prelude::*;
use kvdb_memorydb::InMemory;
use kvdb::DBTransaction;
use crate::keys::{
    candidate_key, candidate_key_spec, has_prefix, hex, lemma_candidate_key_injective, lemma_hex_index,
    lemma_key_kinds_differ, lemma_session_prefixes_disjoint, lemma_vote_keys,
    lemma_watermark_key_outside_sessions, parse_candidate, session_prefix, session_prefix_spec, tally_key,
    tally_key_spec, validator_key, validator_key_spec, validator_prefix, watermark_key, watermark_key_spec,
    CandidateHash, SessionIndex, ValidatorIndex,
};
use crate::kv::{
    apply_ops, kv_contents, kv_create, kv_get, kv_has_column, kv_keys_with_prefix, kv_write, tx_delete, tx_new,
    tx_ops, tx_put,
};
use crate::quorum::{reaches, supermajority, CandidateQuorum, Threshold};
use crate::vote::{
    from_le32, le32, lemma_le32_round_trip, lemma_vote_bytes_injective, lemma_vote_of_bytes, push_le32,
    read_le32, vote_bytes, vote_of_bytes, Vote,
};

verus! {

/// Deletions staged in one transaction before it is committed.
pub const MAX_ITEMS_PER_DB_TRANSACTION: usize = 1024;

/// How many sessions before the current one a session change keeps.
pub const SESSION_COUNT_BEFORE_DROP: u32 = 100;

/// The oldest session that is not pruned yet, as stored; 0 when none is.
pub open spec fn watermark_of(m: Map<Seq<u8>, Seq<u8>>) -> u32 {
    if m.contains_key(watermark_key_spec()) && m[watermark_key_spec()].len() == 4 {
        from_le32(m[watermark_key_spec()])
    } else {
        0
    }
}

/// No key of a session below the watermark is stored.
pub open spec fn sessions_below_pruned(m: Map<Seq<u8>, Seq<u8>>) -> bool {
    forall|k: Seq<u8>, s: u32|
        s < watermark_of(m) && #[trigger] has_prefix(k, session_prefix_spec(s as nat)) ==> !m.contains_key(k)
}

/// The entries after dropping every key of `session` and recording
/// `session + 1` as the watermark.
pub open spec fn prune_session_spec(m: Map<Seq<u8>, Seq<u8>>, session: u32) -> Map<Seq<u8>, Seq<u8>> {
    Map::new(
        |k: Seq<u8>|
            m.contains_key(k) && !has_prefix(k, session_prefix_spec(session as nat)) && k
                != watermark_key_spec(),
        |k: Seq<u8>| m[k],
    ).insert(watermark_key_spec(), le32((session + 1) as u32))
}

/// The entries after pruning the sessions `from..to` one by one.
pub open spec fn prune_range_spec(m: Map<Seq<u8>, Seq<u8>>, from: u32, to: u32) -> Map<Seq<u8>, Seq<u8>>
    decreases to,
{
    if to <= from {
        m
    } else {
        prune_session_spec(prune_range_spec(m, from, (to - 1) as u32), (to - 1) as u32)
    }
}

/// The entries after pruning every session below `target`.
pub open spec fn prune_spec(m: Map<Seq<u8>, Seq<u8>>, target: u32) -> Map<Seq<u8>, Seq<u8>> {
    if watermark_of(m) >= target {
        m
    } else {
        prune_range_spec(m, watermark_of(m), target)
    }
}

proof fn lemma_prune_range_key(m: Map<Seq<u8>, Seq<u8>>, from: u32, to: u32, k: Seq<u8>)
    requires
        k != watermark_key_spec(),
    ensures
        prune_range_spec(m, from, to).contains_key(k) <==> (m.contains_key(k) && !(exists|s: u32|
            from <= s < to && #[trigger] has_prefix(k, session_prefix_spec(s as nat)))),
        prune_range_spec(m, from, to).contains_key(k) ==> prune_range_spec(m, from, to)[k] == m[k],
    decreases to,
{
    if to > from {
        lemma_prune_range_key(m, from, (to - 1) as u32, k);
        let prev = prune_range_spec(m, from, (to - 1) as u32);
        if prune_range_spec(m, from, to).contains_key(k) {
            assert(prev.contains_key(k));
            assert forall|s: u32| from <= s < to implies !has_prefix(k, session_prefix_spec(s as nat)) by {
                if s < to - 1 {
                } else {
                    assert(s == to - 1);
                }
            }
        }
        if m.contains_key(k) && !(exists|s: u32| from <= s < to && #[trigger] has_prefix(k, session_prefix_spec(s as nat))) {
            assert(!has_prefix(k, session_prefix_spec((to - 1) as u32 as nat)));
            assert(prev.contains_key(k));
        }
    }
}

proof fn lemma_prune_range_watermark(m: Map<Seq<u8>, Seq<u8>>, from: u32, to: u32)
    requires
        from < to,
    ensures
        prune_range_spec(m, from, to).contains_key(watermark_key_spec()),
        prune_range_spec(m, from, to)[watermark_key_spec()] == le32(to),
{
}

/// Pruning below `target` leaves no key of a session before `target`,
/// leaves every key of a later session as it was, and moves the watermark up
/// to `target`; pruning again below the same session changes nothing.
pub proof fn lemma_prune_complete(m: Map<Seq<u8>, Seq<u8>>, target: u32)
    requires
        sessions_below_pruned(m),
    ensures
        forall|k: Seq<u8>, s: u32|
            s < target && #[trigger] has_prefix(k, session_prefix_spec(s as nat)) ==> !prune_spec(
                m,
                target,
            ).contains_key(k),
        forall|k: Seq<u8>, s: u32|
            target <= s && #[trigger] has_prefix(k, session_prefix_spec(s as nat)) ==> (prune_spec(
                m,
                target,
            ).contains_key(k) <==> m.contains_key(k)) && (m.contains_key(k) ==> prune_spec(m, target)[k]
                == m[k]),
        watermark_of(prune_spec(m, target)) == if watermark_of(m) >= target {
            watermark_of(m)
        } else {
            target
        },
        sessions_below_pruned(prune_spec(m, target)),
        prune_spec(prune_spec(m, target), target) == prune_spec(m, target),
{
    let w = watermark_of(m);
    let r = prune_spec(m, target);
    if w < target {
        lemma_prune_range_watermark(m, w, target);
        lemma_le32_round_trip(target);
        assert(watermark_of(r) == target);
        assert forall|k: Seq<u8>, s: u32|
            s < target && #[trigger] has_prefix(k, session_prefix_spec(s as nat)) implies !r.contains_key(k) by {
            lemma_watermark_key_outside_sessions(s as nat);
            lemma_prune_range_key(m, w, target, k);
        }
        assert forall|k: Seq<u8>, s: u32|
            target <= s && #[trigger] has_prefix(k, session_prefix_spec(s as nat)) implies (r.contains_key(k)
            <==> m.contains_key(k)) && (m.contains_key(k) ==> r[k] == m[k]) by {
            lemma_watermark_key_outside_sessions(s as nat);
            lemma_prune_range_key(m, w, target, k);
            assert forall|s2: u32| w <= s2 < target implies !has_prefix(k, session_prefix_spec(s2 as nat)) by {
                lemma_session_prefixes_disjoint(s, s2, k);
            }
        }
    }
}

/// What storing one vote brought about.
#[derive(Clone, Copy, Debug, PartialEq, Eq)]
pub enum VoteEvent {
    /// A new vote was recorded.
    Stored,
    /// The same vote was stored before; nothing changed.
    Duplicate,
    /// The vote is the first on its candidate against the side of all the
    /// votes recorded on it so far.
    DisputeDetected { candidate: CandidateHash, vote: Vote },
    /// The validator had already cast a different vote on the candidate; the
    /// first one stays. `previous` is that first vote, read back from the
    /// store (`None` only where the stored bytes are no vote).
    DoubleVote { candidate: CandidateHash, validator: ValidatorIndex, previous: Option<Vote>, vote: Vote },
    /// With this vote its side passed the threshold.
    SupermajorityReached { candidate: CandidateHash, quorum: CandidateQuorum },
    /// The vote's session is pruned already.
    ObsoleteVoteDiscarded { candidate: CandidateHash },
}

/// The tally of positive and negative votes on a candidate; none before the
/// first vote.
pub open spec fn tally_of(m: Map<Seq<u8>, Seq<u8>>, session: u32, candidate: CandidateHash) -> (u32, u32) {
    let tk = tally_key_spec(session as nat, candidate.bytes@);
    if m.contains_key(tk) && m[tk].len() == 8 {
        (from_le32(m[tk]), from_le32(m[tk].subrange(4, 8)))
    } else {
        (0, 0)
    }
}

/// One more than `x`, saturating at `u32::MAX`.
pub open spec fn bump(x: u32) -> u32 {
    if x < u32::MAX {
        (x + 1) as u32
    } else {
        x
    }
}

/// The entries and the event after storing one vote of `session`.
pub open spec fn store_one_spec(
    m: Map<Seq<u8>, Seq<u8>>,
    session: u32,
    v: Vote,
    validators: u32,
    threshold: Threshold,
) -> (Map<Seq<u8>, Seq<u8>>, VoteEvent) {
    let c = v.candidate_spec();
    let val = v.validator_spec();
    let ck = candidate_key_spec(session as nat, c.bytes@, val as nat);
    if m.contains_key(ck) {
        if m[ck] == vote_bytes(v) {
            (m, VoteEvent::Duplicate)
        } else {
            (m, VoteEvent::DoubleVote { candidate: c, validator: val, previous: vote_of_bytes(m[ck]), vote: v })
        }
    } else {
        let (p, q) = tally_of(m, session, c);
        let p2 = if v.is_positive() { bump(p) } else { p };
        let q2 = if v.is_positive() { q } else { bump(q) };
        let m2 = m.insert(ck, vote_bytes(v)).insert(
            validator_key_spec(session as nat, val as nat, c.bytes@),
            Seq::empty(),
        ).insert(tally_key_spec(session as nat, c.bytes@), le32(p2) + le32(q2));
        let ev = if v.is_positive() && !reaches(p, validators, threshold) && reaches(p2, validators, threshold) {
            VoteEvent::SupermajorityReached { candidate: c, quorum: CandidateQuorum::Valid }
        } else if !v.is_positive() && !reaches(q, validators, threshold) && reaches(q2, validators, threshold) {
            VoteEvent::SupermajorityReached { candidate: c, quorum: CandidateQuorum::Invalid }
        } else if (v.is_positive() && p == 0 && q > 0) || (!v.is_positive() && q == 0 && p > 0) {
            VoteEvent::DisputeDetected { candidate: c, vote: v }
        } else {
            VoteEvent::Stored
        };
        (m2, ev)
    }
}

/// The entries and the events after storing `votes` one after another.
pub open spec fn store_batch_spec(
    m: Map<Seq<u8>, Seq<u8>>,
    session: u32,
    votes: Seq<Vote>,
    validators: u32,
    threshold: Threshold,
) -> (Map<Seq<u8>, Seq<u8>>, Seq<VoteEvent>)
    decreases votes.len(),
{
    if votes.len() == 0 {
        (m, Seq::empty())
    } else {
        let (m1, es) = store_batch_spec(m, session, votes.drop_last(), validators, threshold);
        let (m2, e) = store_one_spec(m1, session, votes.last(), validators, threshold);
        (m2, es.push(e))
    }
}

/// The entries and the events after a call of `store_votes`: a batch of a
/// pruned session changes nothing and has each vote discarded.
pub open spec fn store_votes_spec(
    m: Map<Seq<u8>, Seq<u8>>,
    session: u32,
    votes: Seq<Vote>,
    validators: u32,
    threshold: Threshold,
) -> (Map<Seq<u8>, Seq<u8>>, Seq<VoteEvent>) {
    if session < watermark_of(m) {
        (
            m,
            Seq::new(
                votes.len(),
                |i: int| VoteEvent::ObsoleteVoteDiscarded { candidate: votes[i].candidate_spec() },
            ),
        )
    } else {
        store_batch_spec(m, session, votes, validators, threshold)
    }
}

/// Storing a batch yields one event per vote.
pub proof fn lemma_store_batch_len(
    m: Map<Seq<u8>, Seq<u8>>,
    session: u32,
    votes: Seq<Vote>,
    validators: u32,
    threshold: Threshold,
)
    ensures
        store_batch_spec(m, session, votes, validators, threshold).1.len() == votes.len(),
        store_votes_spec(m, session, votes, validators, threshold).1.len() == votes.len(),
    decreases votes.len(),
{
    if votes.len() > 0 {
        lemma_store_batch_len(m, session, votes.drop_last(), validators, threshold);
    }
}

proof fn lemma_store_one_keeps_pruned(
    m: Map<Seq<u8>, Seq<u8>>,
    session: u32,
    v: Vote,
    validators: u32,
    threshold: Threshold,
)
    requires
        session >= watermark_of(m),
        sessions_below_pruned(m),
    ensures
        sessions_below_pruned(store_one_spec(m, session, v, validators, threshold).0),
        watermark_of(store_one_spec(m, session, v, validators, threshold).0) == watermark_of(m),
{
    let c = v.candidate_spec();
    let val = v.validator_spec();
    let m2 = store_one_spec(m, session, v, validators, threshold).0;
    lemma_vote_keys(session as nat, c.bytes@, val as nat);
    let wk = watermark_key_spec();
    assert(m2.contains_key(wk) == m.contains_key(wk));
    assert(m.contains_key(wk) ==> m2[wk] == m[wk]);
    assert forall|k: Seq<u8>, s: u32|
        s < watermark_of(m2) && #[trigger] has_prefix(k, session_prefix_spec(s as nat)) implies !m2.contains_key(k) by {
        if m2.contains_key(k) && !m.contains_key(k) {
            lemma_session_prefixes_disjoint(s, session, k);
        }
    }
}

proof fn lemma_store_batch_keeps_pruned(
    m: Map<Seq<u8>, Seq<u8>>,
    session: u32,
    votes: Seq<Vote>,
    validators: u32,
    threshold: Threshold,
)
    requires
        session >= watermark_of(m),
        sessions_below_pruned(m),
    ensures
        sessions_below_pruned(store_batch_spec(m, session, votes, validators, threshold).0),
        watermark_of(store_batch_spec(m, session, votes, validators, threshold).0) == watermark_of(m),
    decreases votes.len(),
{
    if votes.len() > 0 {
        lemma_store_batch_keeps_pruned(m, session, votes.drop_last(), validators, threshold);
        let m1 = store_batch_spec(m, session, votes.drop_last(), validators, threshold).0;
        lemma_store_one_keeps_pruned(m1, session, votes.last(), validators, threshold);
    }
}

/// The operations staged in `t` are the inserts listed in `staged`.
pub open spec fn staged_puts(t: DBTransaction, staged: Seq<(Vec<u8>, Vec<u8>)>) -> bool {
    &&& tx_ops(t).len() == staged.len()
    &&& forall|i: int|
        0 <= i < staged.len() ==> #[trigger] tx_ops(t)[i] == (staged[i].0@, Some(staged[i].1@))
}

proof fn lemma_apply_untouched(m: Map<Seq<u8>, Seq<u8>>, ops: Seq<(Seq<u8>, Option<Seq<u8>>)>, k: Seq<u8>)
    requires
        forall|i: int| 0 <= i < ops.len() ==> (#[trigger] ops[i]).0 != k,
    ensures
        apply_ops(m, ops).contains_key(k) == m.contains_key(k),
        m.contains_key(k) ==> apply_ops(m, ops)[k] == m[k],
    decreases ops.len(),
{
    if ops.len() > 0 {
        assert(ops.last() == ops[ops.len() - 1]);
        lemma_apply_untouched(m, ops.drop_last(), k);
    }
}

proof fn lemma_apply_last_put(m: Map<Seq<u8>, Seq<u8>>, ops: Seq<(Seq<u8>, Option<Seq<u8>>)>, j: int, k: Seq<u8>)
    requires
        0 <= j < ops.len(),
        ops[j].0 == k,
        ops[j].1 is Some,
        forall|i: int| j < i < ops.len() ==> (#[trigger] ops[i]).0 != k,
    ensures
        apply_ops(m, ops).contains_key(k),
        apply_ops(m, ops)[k] == ops[j].1->0,
    decreases ops.len(),
{
    assert(ops.last() == ops[ops.len() - 1]);
    if j < ops.len() - 1 {
        lemma_apply_last_put(m, ops.drop_last(), j, k);
    }
}

fn bytes_eq(a: &Vec<u8>, b: &Vec<u8>) -> (r: bool)
    ensures
        r == (a@ == b@),
{
    if a.len() != b.len() {
        return false;
    }
    let mut i: usize = 0;
    while i < a.len()
        invariant
            a@.len() == b@.len(),
            i <= a@.len(),
            forall|x: int| 0 <= x < i ==> a@[x] == b@[x],
        decreases a@.len() - i,
    {
        if a[i] != b[i] {
            return false;
        }
        i = i + 1;
    }
    assert(a@ =~= b@);
    true
}

fn copy_bytes(a: &Vec<u8>) -> (r: Vec<u8>)
    ensures
        r@ == a@,
{
    let mut r: Vec<u8> = Vec::new();
    let mut i: usize = 0;
    while i < a.len()
        invariant
            i <= a@.len(),
            r@ == a@.subrange(0, i as int),
        decreases a@.len() - i,
    {
        r.push(a[i]);
        assert(r@ =~= a@.subrange(0, i + 1));
        i = i + 1;
    }
    assert(a@.subrange(0, a@.len() as int) =~= a@);
    r
}

/// The vote store over its key-value database.
pub struct VotesDB {
    db: InMemory,
}

impl View for VotesDB {
    type V = Map<Seq<u8>, Seq<u8>>;

    closed spec fn view(&self) -> Map<Seq<u8>, Seq<u8>> {
        kv_contents(self.db)
    }
}

impl VotesDB {
    /// The database is open.
    pub closed spec fn ready(&self) -> bool {
        kv_has_column(self.db)
    }

    /// The database is open and nothing is stored below the watermark.
    pub open spec fn wf(&self) -> bool {
        self.ready() && sessions_below_pruned(self@)
    }

    /// A store over an empty in-memory database.
    pub fn new_in_memory() -> (r: Self)
        ensures
            r.wf(),
            r@ == Map::<Seq<u8>, Seq<u8>>::empty(),
    {
        VotesDB { db: kv_create() }
    }

    /// The stored value under `key`.
    pub fn read_entry(&self, key: &Vec<u8>) -> (r: Option<Vec<u8>>)
        requires
            self.ready(),
        ensures
            r is Some <==> self@.contains_key(key@),
            r is Some ==> r->0@ == self@[key@],
    {
        kv_get(&self.db, key)
    }

    /// The oldest session for which entries are not pruned yet.
    pub fn oldest_session_waterlevel(&self) -> (r: SessionIndex)
        requires
            self.ready(),
        ensures
            r == watermark_of(self@),
    {
        let key = watermark_key();
        match kv_get(&self.db, &key) {
            Some(v) => {
                if v.len() == 4 {
                    let r = read_le32(&v, 0);
                    assert(v@.subrange(0, 4) =~= v@);
                    r
                } else {
                    0
                }
            },
            None => 0,
        }
    }

    /// Drops every key of `session` in transactions of bounded size; each
    /// commit records how far pruning got.
    fn prune_session(&mut self, session: SessionIndex)
        requires
            old(self).ready(),
            session < u32::MAX,
        ensures
            final(self).ready(),
            final(self)@ == prune_session_spec(old(self)@, session),
    {
        let ghost m0 = self@;
        let wkey = watermark_key();
        let prefix = session_prefix(session);
        let keys = kv_keys_with_prefix(&self.db, &prefix);
        let mut tx = tx_new();
        let mut n: usize = 0;
        let mut j: usize = 0;
        assert(apply_ops(self@, tx_ops(tx)) == m0);
        while j < keys.len()
            invariant
                self.ready(),
                j <= keys@.len(),
                wkey@ == watermark_key_spec(),
                n < MAX_ITEMS_PER_DB_TRANSACTION,
                forall|i: int|
                    0 <= i < keys@.len() ==> has_prefix(#[trigger] keys@[i]@, prefix@) && m0.contains_key(
                        keys@[i]@,
                    ),
                forall|k: Seq<u8>|
                    #[trigger] m0.contains_key(k) && has_prefix(k, prefix@) ==> exists|i: int|
                        0 <= i < keys@.len() && keys@[i]@ == k,
                forall|k: Seq<u8>|
                    k != watermark_key_spec() ==> (#[trigger] apply_ops(self@, tx_ops(tx)).contains_key(k) <==> (
                    m0.contains_key(k) && !(exists|i: int| 0 <= i < j && keys@[i]@ == k))),
                forall|k: Seq<u8>|
                    k != watermark_key_spec() && #[trigger] apply_ops(self@, tx_ops(tx)).contains_key(k)
                        ==> apply_ops(self@, tx_ops(tx))[k] == m0[k],
            decreases keys@.len() - j,
        {
            let ghost before = apply_ops(self@, tx_ops(tx));
            let ghost ops0 = tx_ops(tx);
            tx_delete(&mut tx, &keys[j]);
            assert(tx_ops(tx).drop_last() =~= ops0);
            assert(apply_ops(self@, tx_ops(tx)) == before.remove(keys@[j as int]@));
            n = n + 1;
            if n >= MAX_ITEMS_PER_DB_TRANSACTION {
                let mark = {
                    let mut b: Vec<u8> = Vec::new();
                    push_le32(&mut b, session);
                    b
                };
                let ghost staged = apply_ops(self@, tx_ops(tx));
                let ghost ops1 = tx_ops(tx);
                tx_put(&mut tx, &wkey, &mark);
                assert(tx_ops(tx).drop_last() =~= ops1);
                kv_write(&mut self.db, tx);
                tx = tx_new();
                assert(apply_ops(self@, tx_ops(tx)) == staged.insert(wkey@, mark@));
                n = 0;
            }
            j = j + 1;
        }
        let mark = {
            let mut b: Vec<u8> = Vec::new();
            push_le32(&mut b, session + 1);
            b
        };
        let ghost staged = apply_ops(self@, tx_ops(tx));
        let ghost ops2 = tx_ops(tx);
        tx_put(&mut tx, &wkey, &mark);
        assert(tx_ops(tx).drop_last() =~= ops2);
        kv_write(&mut self.db, tx);
        assert(self@ == staged.insert(wkey@, mark@));
        assert(self@ =~= prune_session_spec(m0, session));
    }

    /// The value under `key` once the staged inserts are applied.
    fn lookup(&self, tx: &DBTransaction, staged: &Vec<(Vec<u8>, Vec<u8>)>, key: &Vec<u8>) -> (r: Option<Vec<u8>>)
        requires
            self.ready(),
            staged_puts(*tx, staged@),
        ensures
            r is Some <==> apply_ops(self@, tx_ops(*tx)).contains_key(key@),
            r is Some ==> r->0@ == apply_ops(self@, tx_ops(*tx))[key@],
    {
        let ghost ops = tx_ops(*tx);
        let mut j: usize = staged.len();
        while j > 0
            invariant
                j <= staged@.len(),
                staged_puts(*tx, staged@),
                ops == tx_ops(*tx),
                forall|i: int| j <= i < ops.len() ==> (#[trigger] ops[i]).0 != key@,
            decreases j,
        {
            if bytes_eq(&staged[j - 1].0, key) {
                proof {
                    assert(ops[j - 1] == (staged@[j - 1].0@, Some(staged@[j - 1].1@)));
                    lemma_apply_last_put(self@, ops, j - 1, key@);
                }
                return Some(copy_bytes(&staged[j - 1].1));
            }
            assert(ops[j - 1] == (staged@[j - 1].0@, Some(staged@[j - 1].1@)));
            j = j - 1;
        }
        proof {
            lemma_apply_untouched(self@, ops, key@);
        }
        kv_get(&self.db, key)
    }

    /// Stages an insert, in the transaction and in the list beside it.
    fn stage_put(
        &self,
        tx: &mut DBTransaction,
        staged: &mut Vec<(Vec<u8>, Vec<u8>)>,
        key: Vec<u8>,
        value: Vec<u8>,
    )
        requires
            staged_puts(*old(tx), old(staged)@),
        ensures
            staged_puts(*final(tx), final(staged)@),
            apply_ops(self@, tx_ops(*final(tx))) == apply_ops(self@, tx_ops(*old(tx))).insert(key@, value@),
    {
        let ghost ops0 = tx_ops(*tx);
        tx_put(tx, &key, &value);
        staged.push((key, value));
        assert(tx_ops(*tx).drop_last() =~= ops0);
        assert(tx_ops(*tx).last() == tx_ops(*tx)[tx_ops(*tx).len() - 1]);
    }

    /// Stages what storing `vote` writes and returns its event.
    fn stage_vote(
        &self,
        tx: &mut DBTransaction,
        staged: &mut Vec<(Vec<u8>, Vec<u8>)>,
        session: SessionIndex,
        vote: &Vote,
        validator_count: u32,
        threshold: Threshold,
    ) -> (r: VoteEvent)
        requires
            self.ready(),
            staged_puts(*old(tx), old(staged)@),
        ensures
            staged_puts(*final(tx), final(staged)@),
            (apply_ops(self@, tx_ops(*final(tx))), r) == store_one_spec(
                apply_ops(self@, tx_ops(*old(tx))),
                session,
                *vote,
                validator_count,
                threshold,
            ),
    {
        let ghost m = apply_ops(self@, tx_ops(*tx));
        let candidate = vote.candidate_hash();
        let validator = vote.validator();
        let ck = candidate_key(session, &candidate, validator);
        let bytes = vote.encode();
        match self.lookup(tx, staged, &ck) {
            Some(previous) => {
                if bytes_eq(&previous, &bytes) {
                    VoteEvent::Duplicate
                } else {
                    let decoded = Vote::decode(&previous);
                    proof {
                        lemma_vote_of_bytes(previous@, decoded);
                    }
                    VoteEvent::DoubleVote { candidate, validator, previous: decoded, vote: *vote }
                }
            },
            None => {
                let tk = tally_key(session, &candidate);
                let (p, q) = match self.lookup(tx, staged, &tk) {
                    Some(t) => {
                        if t.len() == 8 {
                            let p = read_le32(&t, 0);
                            let q = read_le32(&t, 4);
                            proof {
                                let b = t@;
                                assert(b.subrange(0, 4)[0] == b[0] && b.subrange(0, 4)[1] == b[1]
                                    && b.subrange(0, 4)[2] == b[2] && b.subrange(0, 4)[3] == b[3]);
                            }
                            (p, q)
                        } else {
                            (0u32, 0u32)
                        }
                    },
                    None => (0u32, 0u32),
                };
                let positive = vote.positive();
                let p2 = if positive && p < u32::MAX { p + 1 } else { p };
                let q2 = if !positive && q < u32::MAX { q + 1 } else { q };
                let vk = validator_key(session, validator, &candidate);
                let mut tally: Vec<u8> = Vec::new();
                push_le32(&mut tally, p2);
                push_le32(&mut tally, q2);
                self.stage_put(tx, staged, ck, bytes);
                self.stage_put(tx, staged, vk, Vec::new());
                self.stage_put(tx, staged, tk, tally);
                assert(apply_ops(self@, tx_ops(*tx)) =~= store_one_spec(m, session, *vote, validator_count, threshold).0);
                if positive && !supermajority(p, validator_count, threshold) && supermajority(p2, validator_count, threshold) {
                    VoteEvent::SupermajorityReached { candidate, quorum: CandidateQuorum::Valid }
                } else if !positive && !supermajority(q, validator_count, threshold) && supermajority(q2, validator_count, threshold) {
                    VoteEvent::SupermajorityReached { candidate, quorum: CandidateQuorum::Invalid }
                } else if (positive && p == 0 && q > 0) || (!positive && q == 0 && p > 0) {
                    VoteEvent::DisputeDetected { candidate, vote: *vote }
                } else {
                    VoteEvent::Stored
                }
            },
        }
    }

    /// Stores a batch of votes of `session` in one transaction and returns
    /// one event per vote, in order. A batch of a pruned session is not
    /// stored: each of its votes is discarded as obsolete.
    pub fn store_votes(
        &mut self,
        session: SessionIndex,
        votes: &Vec<Vote>,
        validator_count: u32,
        threshold: Threshold,
    ) -> (r: Vec<VoteEvent>)
        requires
            old(self).ready(),
        ensures
            final(self).ready(),
            (final(self)@, r@) == store_votes_spec(old(self)@, session, votes@, validator_count, threshold),
            r@.len() == votes@.len(),
            old(self).wf() ==> final(self).wf(),
    {
        proof {
            lemma_store_batch_len(self@, session, votes@, validator_count, threshold);
            if self.wf() && session >= watermark_of(self@) {
                lemma_store_batch_keeps_pruned(self@, session, votes@, validator_count, threshold);
            }
        }
        let ghost m0 = self@;
        let oldest = self.oldest_session_waterlevel();
        let mut events: Vec<VoteEvent> = Vec::new();
        if session < oldest {
            let mut i: usize = 0;
            while i < votes.len()
                invariant
                    i <= votes@.len(),
                    events@.len() == i,
                    forall|x: int|
                        0 <= x < i ==> #[trigger] events@[x] == (VoteEvent::ObsoleteVoteDiscarded {
                            candidate: votes@[x].candidate_spec(),
                        }),
                decreases votes@.len() - i,
            {
                events.push(VoteEvent::ObsoleteVoteDiscarded { candidate: votes[i].candidate_hash() });
                i = i + 1;
            }
            assert(events@ =~= store_votes_spec(m0, session, votes@, validator_count, threshold).1);
            return events;
        }
        let mut tx = tx_new();
        let mut staged: Vec<(Vec<u8>, Vec<u8>)> = Vec::new();
        let mut i: usize = 0;
        assert(apply_ops(self@, tx_ops(tx)) == m0);
        assert(votes@.take(0) =~= Seq::<Vote>::empty());
        while i < votes.len()
            invariant
                self.ready(),
                self@ == m0,
                i <= votes@.len(),
                staged_puts(tx, staged@),
                (apply_ops(self@, tx_ops(tx)), events@) == store_batch_spec(
                    m0,
                    session,
                    votes@.take(i as int),
                    validator_count,
                    threshold,
                ),
            decreases votes@.len() - i,
        {
            let vote = votes[i];
            let ev = self.stage_vote(&mut tx, &mut staged, session, &vote, validator_count, threshold);
            events.push(ev);
            assert(votes@.take(i + 1).drop_last() =~= votes@.take(i as int));
            i = i + 1;
        }
        assert(votes@.take(votes@.len() as int) =~= votes@);
        kv_write(&mut self.db, tx);
        events
    }

    /// The candidates on which `validator` voted in `session`, read from the
    /// validator-major keys.
    pub fn query(&self, session: SessionIndex, validator: ValidatorIndex) -> (r: Vec<CandidateHash>)
        requires
            self.ready(),
        ensures
            forall|i: int|
                0 <= i < r@.len() ==> self@.contains_key(
                    validator_key_spec(session as nat, validator as nat, #[trigger] r@[i].bytes@),
                ),
            forall|c: CandidateHash|
                #[trigger] self@.contains_key(validator_key_spec(session as nat, validator as nat, c.bytes@))
                    ==> exists|i: int| 0 <= i < r@.len() && r@[i] == c,
    {
        let prefix = validator_prefix(session, validator);
        let keys = kv_keys_with_prefix(&self.db, &prefix);
        let mut r: Vec<CandidateHash> = Vec::new();
        let mut i: usize = 0;
        while i < keys.len()
            invariant
                i <= keys@.len(),
                forall|c: Seq<u8>|
                    #[trigger] validator_key_spec(session as nat, validator as nat, c) == prefix@ + hex(c),
                forall|x: int|
                    0 <= x < keys@.len() ==> has_prefix(#[trigger] keys@[x]@, prefix@) && self@.contains_key(
                        keys@[x]@,
                    ),
                forall|k: Seq<u8>|
                    #[trigger] self@.contains_key(k) && has_prefix(k, prefix@) ==> exists|x: int|
                        0 <= x < keys@.len() && keys@[x]@ == k,
                forall|x: int|
                    0 <= x < r@.len() ==> self@.contains_key(
                        validator_key_spec(session as nat, validator as nat, #[trigger] r@[x].bytes@),
                    ),
                forall|c: CandidateHash, x: int|
                    #![trigger keys@[x], validator_key_spec(session as nat, validator as nat, c.bytes@)]
                    0 <= x < i && keys@[x]@ == validator_key_spec(
                        session as nat,
                        validator as nat,
                        c.bytes@,
                    ) ==> exists|y: int| 0 <= y < r@.len() && r@[y] == c,
            decreases keys@.len() - i,
        {
            let k = &keys[i];
            let ghost r0 = r@;
            if k.len() >= 64 && k.len() - 64 == prefix.len() {
                let parsed = parse_candidate(k, prefix.len());
                match parsed {
                    Some(c) => {
                        proof {
                            assert(k@ =~= prefix@ + hex(c.bytes@));
                        }
                        r.push(c);
                        assert(r@[r0.len() as int] == c);
                    },
                    None => {},
                }
            }
            proof {
                assert forall|c: CandidateHash, x: int|
                    #![trigger keys@[x], validator_key_spec(session as nat, validator as nat, c.bytes@)]
                    0 <= x < i + 1 && keys@[x]@ == validator_key_spec(
                        session as nat,
                        validator as nat,
                        c.bytes@,
                    ) implies exists|y: int| 0 <= y < r@.len() && r@[y] == c by {
                    if x < i {
                        let y = choose|y: int| 0 <= y < r0.len() && r0[y] == c;
                        assert(r@[y] == c);
                    } else {
                        lemma_hex_index(c.bytes@);
                        assert(k@.subrange(prefix@.len() as int, prefix@.len() + 64int) =~= hex(c.bytes@));
                        assert(r@[r0.len() as int] == c);
                    }
                }
            }
            i = i + 1;
        }
        proof {
            assert forall|c: CandidateHash|
                #[trigger] self@.contains_key(validator_key_spec(session as nat, validator as nat, c.bytes@))
                    implies exists|i: int| 0 <= i < r@.len() && r@[i] == c by {
                let vk = validator_key_spec(session as nat, validator as nat, c.bytes@);
                assert(vk.subrange(0, prefix@.len() as int) =~= prefix@);
                assert(has_prefix(vk, prefix@));
                let x = choose|x: int| 0 <= x < keys@.len() && keys@[x]@ == vk;
                assert(keys@[x]@ == vk);
            }
        }
        r
    }

    /// Stores one vote of `session` and returns its event.
    pub fn store_vote(&mut self, session: SessionIndex, vote: Vote, validator_count: u32, threshold: Threshold) -> (r:
        VoteEvent)
        requires
            old(self).ready(),
        ensures
            final(self).ready(),
            (final(self)@, seq![r]) == store_votes_spec(old(self)@, session, seq![vote], validator_count, threshold),
            old(self).wf() ==> final(self).wf(),
    {
        let votes = vec![vote];
        let events = self.store_votes(session, &votes, validator_count, threshold);
        assert(votes@ == seq![vote]);
        proof {
            lemma_store_batch_len(old(self)@, session, votes@, validator_count, threshold);
        }
        assert(events@.len() == 1);
        let r = events[0];
        assert(events@ =~= seq![r]);
        r
    }

    /// Removes every stored vote of a session before `session`, session by
    /// session in increasing order, and records `session` as the watermark.
    /// Does nothing where the watermark is already at or past `session`.
    pub fn prune_votes_older_than_session(&mut self, session: SessionIndex)
        requires
            old(self).ready(),
        ensures
            final(self).ready(),
            final(self)@ == prune_spec(old(self)@, session),
            old(self).wf() ==> final(self).wf(),
    {
        proof {
            if self.wf() {
                lemma_prune_complete(self@, session);
            }
        }
        let ghost m0 = self@;
        let oldest = self.oldest_session_waterlevel();
        if oldest >= session {
            return;
        }
        let mut cursor: SessionIndex = oldest;
        while cursor < session
            invariant
                self.ready(),
                oldest <= cursor <= session,
                oldest == watermark_of(m0),
                self@ == prune_range_spec(m0, oldest, cursor),
            decreases session - cursor,
        {
            self.prune_session(cursor);
            cursor = cursor + 1;
        }
    }

    /// Prunes what falls out of the retention window once `current_session`
    /// has begun.
    pub fn on_session_change(&mut self, current_session: SessionIndex)
        requires
            old(self).ready(),
        ensures
            final(self).ready(),
            final(self)@ == prune_spec(
                old(self)@,
                if current_session >= SESSION_COUNT_BEFORE_DROP {
                    (current_session - SESSION_COUNT_BEFORE_DROP) as u32
                } else {
                    0
                },
            ),
            old(self).wf() ==> final(self).wf(),
    {
        self.prune_votes_older_than_session(current_session.saturating_sub(SESSION_COUNT_BEFORE_DROP));
    }
}


proof fn lemma_store_single(
    m: Map<Seq<u8>, Seq<u8>>,
    session: u32,
    v: Vote,
    validators: u32,
    threshold: Threshold,
)
    requires
        session >= watermark_of(m),
    ensures
        store_votes_spec(m, session, seq![v], validators, threshold) == ({
            let (m1, e) = store_one_spec(m, session, v, validators, threshold);
            (m1, seq![e])
        }),
        watermark_of(store_one_spec(m, session, v, validators, threshold).0) == watermark_of(m),
{
    let votes = seq![v];
    assert(votes.drop_last() =~= Seq::<Vote>::empty());
    assert(votes.last() == v);
    let (m1, e) = store_one_spec(m, session, v, validators, threshold);
    assert(Seq::<VoteEvent>::empty().push(e) =~= seq![e]);
    assert(store_batch_spec(m, session, votes.drop_last(), validators, threshold) == (m, Seq::<VoteEvent>::empty()));
    assert(store_batch_spec(m, session, votes, validators, threshold) == (m1, Seq::<VoteEvent>::empty().push(e)));
    let c = v.candidate_spec();
    lemma_vote_keys(session as nat, c.bytes@, v.validator_spec() as nat);
    let wk = watermark_key_spec();
    assert(m1.contains_key(wk) == m.contains_key(wk));
    assert(m.contains_key(wk) ==> m1[wk] == m[wk]);
}

/// Storing a vote on which its validator has not voted yet yields a new-vote
/// event; storing the same vote again then yields `Duplicate` and changes
/// nothing.
pub proof fn lemma_store_idempotent(
    m: Map<Seq<u8>, Seq<u8>>,
    session: u32,
    v: Vote,
    validators: u32,
    threshold: Threshold,
)
    requires
        session >= watermark_of(m),
        !m.contains_key(candidate_key_spec(session as nat, v.candidate_spec().bytes@, v.validator_spec() as nat)),
    ensures
        ({
            let (m1, e1) = store_votes_spec(m, session, seq![v], validators, threshold);
            let (m2, e2) = store_votes_spec(m1, session, seq![v], validators, threshold);
            &&& e1.len() == 1
            &&& (e1[0] is Stored || e1[0] is DisputeDetected || e1[0] is SupermajorityReached)
            &&& m1[candidate_key_spec(session as nat, v.candidate_spec().bytes@, v.validator_spec() as nat)]
                == vote_bytes(v)
            &&& e2 == seq![VoteEvent::Duplicate]
            &&& m2 == m1
        }),
{
    let c = v.candidate_spec();
    lemma_vote_keys(session as nat, c.bytes@, v.validator_spec() as nat);
    lemma_store_single(m, session, v, validators, threshold);
    let m1 = store_one_spec(m, session, v, validators, threshold).0;
    lemma_store_single(m1, session, v, validators, threshold);
}

/// A second, different vote of a validator on a candidate yields
/// `DoubleVote` and leaves the first vote stored as it was.
pub proof fn lemma_double_vote_keeps_first(
    m: Map<Seq<u8>, Seq<u8>>,
    session: u32,
    first: Vote,
    second: Vote,
    validators: u32,
    threshold: Threshold,
)
    requires
        session >= watermark_of(m),
        first.candidate_spec() == second.candidate_spec(),
        first.validator_spec() == second.validator_spec(),
        first != second,
        !m.contains_key(
            candidate_key_spec(session as nat, first.candidate_spec().bytes@, first.validator_spec() as nat),
        ),
    ensures
        ({
            let (m1, e1) = store_votes_spec(m, session, seq![first], validators, threshold);
            let (m2, e2) = store_votes_spec(m1, session, seq![second], validators, threshold);
            &&& e2 == seq![
                VoteEvent::DoubleVote {
                    candidate: second.candidate_spec(),
                    validator: second.validator_spec(),
                    previous: Some(first),
                    vote: second,
                },
            ]
            &&& m2 == m1
            &&& m2[candidate_key_spec(
                session as nat,
                first.candidate_spec().bytes@,
                first.validator_spec() as nat,
            )] == vote_bytes(first)
        }),
{
    let c = first.candidate_spec();
    if vote_bytes(first) == vote_bytes(second) {
        lemma_vote_bytes_injective(first, second);
    }
    assert forall|v: Vote| vote_bytes(v) == vote_bytes(first) implies Some(first) == Some(v) by {
        lemma_vote_bytes_injective(v, first);
    }
    lemma_vote_of_bytes(vote_bytes(first), Some(first));
    lemma_vote_keys(session as nat, c.bytes@, first.validator_spec() as nat);
    lemma_store_single(m, session, first, validators, threshold);
    let m1 = store_one_spec(m, session, first, validators, threshold).0;
    lemma_store_single(m1, session, second, validators, threshold);
}

/// On a candidate with no vote yet, a positive vote and then a negative vote
/// of another validator yield `Stored` and then `DisputeDetected`, as long
/// as a single vote is no supermajority.
pub proof fn lemma_dispute_detected(
    m: Map<Seq<u8>, Seq<u8>>,
    session: u32,
    pos: Vote,
    neg: Vote,
    validators: u32,
    threshold: Threshold,
)
    requires
        session >= watermark_of(m),
        pos.is_positive(),
        !neg.is_positive(),
        pos.candidate_spec() == neg.candidate_spec(),
        pos.validator_spec() != neg.validator_spec(),
        !m.contains_key(tally_key_spec(session as nat, pos.candidate_spec().bytes@)),
        !m.contains_key(
            candidate_key_spec(session as nat, pos.candidate_spec().bytes@, pos.validator_spec() as nat),
        ),
        !m.contains_key(
            candidate_key_spec(session as nat, neg.candidate_spec().bytes@, neg.validator_spec() as nat),
        ),
        !reaches(1, validators, threshold),
    ensures
        ({
            let (m1, e1) = store_votes_spec(m, session, seq![pos], validators, threshold);
            let (m2, e2) = store_votes_spec(m1, session, seq![neg], validators, threshold);
            &&& e1 == seq![VoteEvent::Stored]
            &&& e2 == seq![VoteEvent::DisputeDetected { candidate: neg.candidate_spec(), vote: neg }]
        }),
{
    let c = pos.candidate_spec();
    let sn = session as nat;
    lemma_vote_keys(sn, c.bytes@, pos.validator_spec() as nat);
    lemma_vote_keys(sn, c.bytes@, neg.validator_spec() as nat);
    lemma_store_single(m, session, pos, validators, threshold);
    let m1 = store_one_spec(m, session, pos, validators, threshold).0;
    lemma_store_single(m1, session, neg, validators, threshold);
    assert(!reaches(0, validators, threshold));
    let ck2 = candidate_key_spec(sn, c.bytes@, neg.validator_spec() as nat);
    if ck2 == candidate_key_spec(sn, c.bytes@, pos.validator_spec() as nat) {
        lemma_candidate_key_injective(session, c, neg.validator_spec(), session, c, pos.validator_spec());
    }
    lemma_key_kinds_differ(sn, c.bytes@, neg.validator_spec() as nat, c.bytes@, pos.validator_spec() as nat);
    assert(!m1.contains_key(ck2));
    let t = le32(1) + le32(0);
    lemma_le32_round_trip(1);
    lemma_le32_round_trip(0);
    let tk = tally_key_spec(sn, c.bytes@);
    assert(m1[tk] == t);
    assert(t.subrange(4, 8) =~= le32(0));
    assert(t[0] == le32(1)[0] && t[1] == le32(1)[1] && t[2] == le32(1)[2] && t[3] == le32(1)[3]);
    assert(from_le32(t) == 1);
    assert(tally_of(m1, session, c) == (1u32, 0u32));
}

/// The event of the `i`-th (from 0) of a run of positive votes of distinct
/// validators on a fresh candidate.
pub open spec fn positive_run_event(i: int, c: CandidateHash, validators: u32, threshold: Threshold) -> VoteEvent {
    if !reaches(i as u32, validators, threshold) && reaches((i + 1) as u32, validators, threshold) {
        VoteEvent::SupermajorityReached { candidate: c, quorum: CandidateQuorum::Valid }
    } else {
        VoteEvent::Stored
    }
}

proof fn lemma_tally_bytes(m: Map<Seq<u8>, Seq<u8>>, session: u32, c: CandidateHash, p: u32, q: u32)
    requires
        m.contains_key(tally_key_spec(session as nat, c.bytes@)),
        m[tally_key_spec(session as nat, c.bytes@)] == le32(p) + le32(q),
    ensures
        tally_of(m, session, c) == (p, q),
{
    let t = le32(p) + le32(q);
    lemma_le32_round_trip(p);
    lemma_le32_round_trip(q);
    assert(t.subrange(4, 8) =~= le32(q));
    assert(t[0] == le32(p)[0] && t[1] == le32(p)[1] && t[2] == le32(p)[2] && t[3] == le32(p)[3]);
}

/// Storing positive votes of distinct validators, one after another, on a
/// candidate with no vote yet, counts them one by one, and each yields
/// `Stored` but the one with which the count passes the threshold, which
/// yields `SupermajorityReached`.
pub proof fn lemma_positive_run(
    m: Map<Seq<u8>, Seq<u8>>,
    session: u32,
    c: CandidateHash,
    votes: Seq<Vote>,
    validators: u32,
    threshold: Threshold,
)
    requires
        session >= watermark_of(m),
        votes.len() < u32::MAX,
        forall|i: int| 0 <= i < votes.len() ==> (#[trigger] votes[i]).is_positive() && votes[i].candidate_spec() == c,
        forall|i: int, j: int|
            0 <= i < votes.len() && 0 <= j < votes.len() && i != j ==> (#[trigger] votes[i]).validator_spec()
                != (#[trigger] votes[j]).validator_spec(),
        forall|i: int|
            0 <= i < votes.len() ==> !m.contains_key(
                candidate_key_spec(session as nat, c.bytes@, (#[trigger] votes[i]).validator_spec() as nat),
            ),
        !m.contains_key(tally_key_spec(session as nat, c.bytes@)),
    ensures
        tally_of(store_batch_spec(m, session, votes, validators, threshold).0, session, c) == (votes.len() as u32, 0u32),
        store_batch_spec(m, session, votes, validators, threshold).1.len() == votes.len(),
        forall|i: int|
            0 <= i < votes.len() ==> #[trigger] store_batch_spec(m, session, votes, validators, threshold).1[i]
                == positive_run_event(i, c, validators, threshold),
        watermark_of(store_batch_spec(m, session, votes, validators, threshold).0) == watermark_of(m),
        forall|k: Seq<u8>|
            #[trigger] store_batch_spec(m, session, votes, validators, threshold).0.contains_key(k) ==> m.contains_key(k)
                || k == tally_key_spec(session as nat, c.bytes@) || exists|i: int|
                0 <= i < votes.len() && (k == candidate_key_spec(
                    session as nat,
                    c.bytes@,
                    (#[trigger] votes[i]).validator_spec() as nat,
                ) || k == validator_key_spec(session as nat, votes[i].validator_spec() as nat, c.bytes@)),
    decreases votes.len(),
{
    let sn = session as nat;
    let tk = tally_key_spec(sn, c.bytes@);
    if votes.len() == 0 {
        return;
    }
    let prev = votes.drop_last();
    let n = votes.len() - 1;
    let v = votes.last();
    assert(v == votes[n]);
    assert forall|i: int| 0 <= i < prev.len() implies prev[i] == votes[i] by {}
    assert forall|i: int, j: int|
        0 <= i < prev.len() && 0 <= j < prev.len() && i != j implies (#[trigger] prev[i]).validator_spec()
            != (#[trigger] prev[j]).validator_spec() by {
        assert(prev[i] == votes[i] && prev[j] == votes[j]);
    }
    assert forall|i: int| 0 <= i < prev.len() implies (#[trigger] prev[i]).is_positive() && prev[i].candidate_spec()
        == c && !m.contains_key(candidate_key_spec(sn, c.bytes@, prev[i].validator_spec() as nat)) by {
        assert(prev[i] == votes[i]);
    }
    lemma_positive_run(m, session, c, prev, validators, threshold);
    let (m1, es1) = store_batch_spec(m, session, prev, validators, threshold);
    let ck = candidate_key_spec(sn, c.bytes@, v.validator_spec() as nat);
    lemma_vote_keys(sn, c.bytes@, v.validator_spec() as nat);
    lemma_watermark_key_outside_sessions(sn);
    if m1.contains_key(ck) {
        assert(!m.contains_key(ck));
        let i = choose|i: int|
            0 <= i < prev.len() && (ck == candidate_key_spec(sn, c.bytes@, (#[trigger] prev[i]).validator_spec() as nat)
                || ck == validator_key_spec(sn, prev[i].validator_spec() as nat, c.bytes@));
        assert(prev[i] == votes[i]);
        lemma_key_kinds_differ(sn, c.bytes@, v.validator_spec() as nat, c.bytes@, prev[i].validator_spec() as nat);
        if ck == candidate_key_spec(sn, c.bytes@, prev[i].validator_spec() as nat) {
            lemma_candidate_key_injective(session, c, v.validator_spec(), session, c, prev[i].validator_spec());
        }
    }
    let (m2, e) = store_one_spec(m1, session, v, validators, threshold);
    lemma_tally_bytes(m2, session, c, votes.len() as u32, 0u32);
    assert(store_batch_spec(m, session, votes, validators, threshold) == (m2, es1.push(e)));
    assert(e == positive_run_event(n, c, validators, threshold));
    let wk = watermark_key_spec();
    assert(m2.contains_key(wk) == m1.contains_key(wk));
    assert(m1.contains_key(wk) ==> m2[wk] == m1[wk]);
    assert forall|k: Seq<u8>| #[trigger] m2.contains_key(k) implies m.contains_key(k) || k == tk || exists|i: int|
        0 <= i < votes.len() && (k == candidate_key_spec(sn, c.bytes@, (#[trigger] votes[i]).validator_spec() as nat)
            || k == validator_key_spec(sn, votes[i].validator_spec() as nat, c.bytes@)) by {
        if m1.contains_key(k) && !m.contains_key(k) && k != tk {
            let i = choose|i: int|
                0 <= i < prev.len() && (k == candidate_key_spec(sn, c.bytes@, (#[trigger] prev[i]).validator_spec() as nat)
                    || k == validator_key_spec(sn, prev[i].validator_spec() as nat, c.bytes@));
            assert(prev[i] == votes[i]);
        } else if !m1.contains_key(k) {
            assert(votes[n] == v);
        }
    }
}

/// With ten validators and the two-thirds threshold, seven positive votes
/// of distinct validators on a fresh candidate yield `Stored` six times and
/// then `SupermajorityReached`.
pub proof fn lemma_seventh_of_ten(m: Map<Seq<u8>, Seq<u8>>, session: u32, c: CandidateHash, votes: Seq<Vote>)
    requires
        session >= watermark_of(m),
        votes.len() == 7,
        forall|i: int| 0 <= i < votes.len() ==> (#[trigger] votes[i]).is_positive() && votes[i].candidate_spec() == c,
        forall|i: int, j: int|
            0 <= i < votes.len() && 0 <= j < votes.len() && i != j ==> (#[trigger] votes[i]).validator_spec()
                != (#[trigger] votes[j]).validator_spec(),
        forall|i: int|
            0 <= i < votes.len() ==> !m.contains_key(
                candidate_key_spec(session as nat, c.bytes@, (#[trigger] votes[i]).validator_spec() as nat),
            ),
        !m.contains_key(tally_key_spec(session as nat, c.bytes@)),
    ensures
        store_votes_spec(m, session, votes, 10, Threshold { numerator: 2, denominator: 3 }).1 == seq![
            VoteEvent::Stored,
            VoteEvent::Stored,
            VoteEvent::Stored,
            VoteEvent::Stored,
            VoteEvent::Stored,
            VoteEvent::Stored,
            VoteEvent::SupermajorityReached { candidate: c, quorum: CandidateQuorum::Valid },
        ],
{
    let th = Threshold { numerator: 2, denominator: 3 };
    lemma_positive_run(m, session, c, votes, 10, th);
    let es = store_votes_spec(m, session, votes, 10, th).1;
    assert(es[0] == positive_run_event(0, c, 10, th));
    assert(es[1] == positive_run_event(1, c, 10, th));
    assert(es[2] == positive_run_event(2, c, 10, th));
    assert(es[3] == positive_run_event(3, c, 10, th));
    assert(es[4] == positive_run_event(4, c, 10, th));
    assert(es[5] == positive_run_event(5, c, 10, th));
    assert(es[6] == positive_run_event(6, c, 10, th));
    assert(es =~= seq![
        VoteEvent::Stored,
        VoteEvent::Stored,
        VoteEvent::Stored,
        VoteEvent::Stored,
        VoteEvent::Stored,
        VoteEvent::Stored,
        VoteEvent::SupermajorityReached { candidate: c, quorum: CandidateQuorum::Valid },
    ]);
}

/// Once pruning has moved the watermark past a session, a batch of that
/// session is discarded vote by vote and changes nothing.
pub proof fn lemma_obsolete_after_prune(
    m: Map<Seq<u8>, Seq<u8>>,
    target: u32,
    session: u32,
    votes: Seq<Vote>,
    validators: u32,
    threshold: Threshold,
)
    requires
        sessions_below_pruned(m),
        session < target,
    ensures
        ({
            let pruned = prune_spec(m, target);
            let (m1, events) = store_votes_spec(pruned, session, votes, validators, threshold);
            &&& m1 == pruned
            &&& events.len() == votes.len()
            &&& forall|i: int|
                0 <= i < votes.len() ==> #[trigger] events[i] == (VoteEvent::ObsoleteVoteDiscarded {
                    candidate: votes[i].candidate_spec(),
                })
        }),
{
    lemma_prune_complete(m, target);
}

} // verus!
