//! Votes and their byte encoding.
use vstd::prelude::*;
use crate::keys::{CandidateHash, ValidatorIndex};

verus! {

/// A validator's signature over a statement.
#[derive(Clone, Copy, Debug, PartialEq, Eq)]
pub struct Signature {
    pub bytes: [u8; 64],
}

/// How a backing validator attested to a candidate.
#[derive(Clone, Copy, Debug, PartialEq, Eq)]
pub enum ValidityAttestation {
    /// The validator seconded the candidate.
    Implicit(Signature),
    /// The validator checked a candidate seconded by another.
    Explicit(Signature),
}

/// A signed statement of a validator on a candidate.
#[derive(Clone, Copy, Debug, PartialEq, Eq)]
pub struct SignedStatement {
    pub validator_index: ValidatorIndex,
    pub candidate_hash: CandidateHash,
    pub signature: Signature,
}

/// A vote cast by a validator on a candidate.
#[derive(Clone, Copy, Debug, PartialEq, Eq)]
pub enum Vote {
    /// One validator's part of a backed candidate.
    Backing {
        attestation: ValidityAttestation,
        validator_index: ValidatorIndex,
        candidate_hash: CandidateHash,
    },
    /// An approval check of the candidate.
    ApprovalCheck { sfs: SignedStatement },
    /// A vote for the candidate, cast in a dispute.
    DisputePositive { sfs: SignedStatement },
    /// A vote against the candidate, cast in a dispute.
    DisputeNegative { sfs: SignedStatement },
}

/// A candidate together with the attestations of the validators that backed
/// it.
#[derive(Clone, Debug, PartialEq, Eq)]
pub struct BackedCandidate {
    pub candidate_hash: CandidateHash,
    /// The backing validators, in the order of `validity_votes`.
    pub validator_indices: Vec<ValidatorIndex>,
    pub validity_votes: Vec<ValidityAttestation>,
}

impl BackedCandidate {
    /// One backing vote per validator and attestation, paired in order; an
    /// unpaired tail of either list is left out.
    pub fn votes(&self) -> (r: Vec<Vote>)
        ensures
            r@.len() == if self.validator_indices@.len() <= self.validity_votes@.len() {
                self.validator_indices@.len()
            } else {
                self.validity_votes@.len()
            },
            forall|i: int|
                0 <= i < r@.len() ==> #[trigger] r@[i] == (Vote::Backing {
                    attestation: self.validity_votes@[i],
                    validator_index: self.validator_indices@[i],
                    candidate_hash: self.candidate_hash,
                }),
    {
        let mut r: Vec<Vote> = Vec::new();
        let mut i: usize = 0;
        while i < self.validator_indices.len() && i < self.validity_votes.len()
            invariant
                i <= self.validator_indices@.len(),
                i <= self.validity_votes@.len(),
                r@.len() == i,
                forall|j: int|
                    0 <= j < i ==> #[trigger] r@[j] == (Vote::Backing {
                        attestation: self.validity_votes@[j],
                        validator_index: self.validator_indices@[j],
                        candidate_hash: self.candidate_hash,
                    }),
            decreases self.validator_indices@.len() - i,
        {
            r.push(
                Vote::Backing {
                    attestation: self.validity_votes[i],
                    validator_index: self.validator_indices[i],
                    candidate_hash: self.candidate_hash,
                },
            );
            i = i + 1;
        }
        r
    }
}

/// Little-endian bytes of `n`.
pub open spec fn le32(n: u32) -> Seq<u8> {
    seq![n as u8, (n >> 8u32) as u8, (n >> 16u32) as u8, (n >> 24u32) as u8]
}

/// The `u32` whose little-endian bytes are the first four of `b`.
pub open spec fn from_le32(b: Seq<u8>) -> u32
    recommends
        b.len() >= 4,
{
    (b[0] as u32) | ((b[1] as u32) << 8u32) | ((b[2] as u32) << 16u32) | ((b[3] as u32) << 24u32)
}

pub proof fn lemma_le32_round_trip(n: u32)
    ensures
        from_le32(le32(n)) == n,
        le32(n).len() == 4,
{
    let b = le32(n);
    assert(b[0] == n as u8 && b[1] == (n >> 8u32) as u8 && b[2] == (n >> 16u32) as u8 && b[3] == (n >> 24u32) as u8);
    assert(((n as u8) as u32) | ((((n >> 8u32) as u8) as u32) << 8u32) | ((((n >> 16u32) as u8) as u32) << 16u32)
        | ((((n >> 24u32) as u8) as u32) << 24u32) == n) by (bit_vector);
}

pub proof fn lemma_le32_of_bytes(b: Seq<u8>)
    requires
        b.len() == 4,
    ensures
        le32(from_le32(b)) == b,
{
    let (b0, b1, b2, b3) = (b[0], b[1], b[2], b[3]);
    let n = from_le32(b);
    assert(n == (b0 as u32) | ((b1 as u32) << 8u32) | ((b2 as u32) << 16u32) | ((b3 as u32) << 24u32));
    assert(n as u8 == b0 && (n >> 8u32) as u8 == b1 && (n >> 16u32) as u8 == b2 && (n >> 24u32) as u8 == b3)
        by (bit_vector)
        requires
            n == (b0 as u32) | ((b1 as u32) << 8u32) | ((b2 as u32) << 16u32) | ((b3 as u32) << 24u32),
    ;
    assert(le32(n) =~= b);
}

pub fn push_le32(out: &mut Vec<u8>, n: u32)
    ensures
        final(out)@ == old(out)@ + le32(n),
{
    out.push(n as u8);
    out.push((n >> 8u32) as u8);
    out.push((n >> 16u32) as u8);
    out.push((n >> 24u32) as u8);
    assert(final(out)@ =~= old(out)@ + le32(n));
}

/// Reads the `u32` stored little-endian at `b[at..at + 4]`.
pub fn read_le32(b: &Vec<u8>, at: usize) -> (r: u32)
    requires
        at + 4 <= b@.len(),
    ensures
        r == from_le32(b@.subrange(at as int, at + 4)),
{
    let _len = b.len();
    let r = (b[at] as u32) | ((b[at + 1] as u32) << 8u32) | ((b[at + 2] as u32) << 16u32) | ((b[at + 3] as u32)
        << 24u32);
    let ghost s = b@.subrange(at as int, at + 4);
    assert(s[0] == b@[at as int] && s[1] == b@[at + 1] && s[2] == b@[at + 2] && s[3] == b@[at + 3]);
    r
}

fn push_array<const N: usize>(out: &mut Vec<u8>, a: &[u8; N])
    ensures
        final(out)@ == old(out)@ + a@,
{
    let mut i: usize = 0;
    while i < N
        invariant
            i <= N,
            a@.len() == N,
            out@ == old(out)@ + a@.subrange(0, i as int),
        decreases N - i,
    {
        out.push(a[i]);
        assert(out@ =~= old(out)@ + a@.subrange(0, i + 1));
        i = i + 1;
    }
    assert(a@.subrange(0, N as int) =~= a@);
}

fn read_array<const N: usize>(b: &Vec<u8>, at: usize) -> (r: [u8; N])
    requires
        at + N <= b@.len(),
    ensures
        r@ == b@.subrange(at as int, at + N),
{
    let len = b.len();
    let mut r: [u8; N] = [0u8; N];
    let mut i: usize = 0;
    while i < N
        invariant
            i <= N,
            len == b@.len(),
            at + N <= b@.len(),
            r@.len() == N,
            forall|j: int| 0 <= j < i ==> r@[j] == b@[at + j],
        decreases N - i,
    {
        r[i] = b[at + i];
        i = i + 1;
    }
    assert(r@ =~= b@.subrange(at as int, at + N));
    r
}

fn read_statement(b: &Vec<u8>, at: usize) -> (r: SignedStatement)
    requires
        at + 100 <= b@.len(),
    ensures
        statement_bytes(r) == b@.subrange(at as int, at + 100),
{
    let _len = b.len();
    let validator_index = read_le32(b, at);
    let candidate_hash = CandidateHash { bytes: read_array(b, at + 4) };
    let signature = Signature { bytes: read_array(b, at + 36) };
    let r = SignedStatement { validator_index, candidate_hash, signature };
    proof {
        let w = b@.subrange(at as int, at + 100);
        lemma_le32_of_bytes(b@.subrange(at as int, at + 4));
        assert(statement_bytes(r) =~= w);
    }
    r
}

pub open spec fn statement_bytes(s: SignedStatement) -> Seq<u8> {
    le32(s.validator_index) + s.candidate_hash.bytes@ + s.signature.bytes@
}

pub open spec fn attestation_bytes(a: ValidityAttestation) -> Seq<u8> {
    match a {
        ValidityAttestation::Implicit(sig) => seq![0u8] + sig.bytes@,
        ValidityAttestation::Explicit(sig) => seq![1u8] + sig.bytes@,
    }
}

/// Tag byte of each kind of vote.
pub open spec fn vote_tag(v: Vote) -> u8 {
    match v {
        Vote::Backing { .. } => 0u8,
        Vote::ApprovalCheck { .. } => 1u8,
        Vote::DisputePositive { .. } => 2u8,
        Vote::DisputeNegative { .. } => 3u8,
    }
}

/// The bytes under which a vote is stored: its tag, then its fields.
pub open spec fn vote_bytes(v: Vote) -> Seq<u8> {
    seq![vote_tag(v)] + match v {
        Vote::Backing { attestation, validator_index, candidate_hash } => attestation_bytes(attestation)
            + le32(validator_index) + candidate_hash.bytes@,
        Vote::ApprovalCheck { sfs } => statement_bytes(sfs),
        Vote::DisputePositive { sfs } => statement_bytes(sfs),
        Vote::DisputeNegative { sfs } => statement_bytes(sfs),
    }
}

fn push_statement(out: &mut Vec<u8>, s: &SignedStatement)
    ensures
        final(out)@ == old(out)@ + statement_bytes(*s),
{
    push_le32(out, s.validator_index);
    push_array(out, &s.candidate_hash.bytes);
    push_array(out, &s.signature.bytes);
    assert(final(out)@ =~= old(out)@ + statement_bytes(*s));
}

impl Vote {
    /// The vote supports the validity of the candidate.
    pub open spec fn is_positive(self) -> bool {
        !(self is DisputeNegative)
    }

    pub open spec fn validator_spec(self) -> ValidatorIndex {
        match self {
            Vote::Backing { validator_index, .. } => validator_index,
            Vote::ApprovalCheck { sfs } => sfs.validator_index,
            Vote::DisputePositive { sfs } => sfs.validator_index,
            Vote::DisputeNegative { sfs } => sfs.validator_index,
        }
    }

    pub open spec fn candidate_spec(self) -> CandidateHash {
        match self {
            Vote::Backing { candidate_hash, .. } => candidate_hash,
            Vote::ApprovalCheck { sfs } => sfs.candidate_hash,
            Vote::DisputePositive { sfs } => sfs.candidate_hash,
            Vote::DisputeNegative { sfs } => sfs.candidate_hash,
        }
    }

    /// Determines if the vote supports the validity of the candidate.
    pub fn positive(&self) -> (r: bool)
        ensures
            r == self.is_positive(),
    {
        match self {
            Vote::Backing { .. } => true,
            Vote::ApprovalCheck { .. } => true,
            Vote::DisputePositive { .. } => true,
            Vote::DisputeNegative { .. } => false,
        }
    }

    /// Determines if the vote challenges the validity of the candidate.
    pub fn negative(&self) -> (r: bool)
        ensures
            r == !self.is_positive(),
    {
        !self.positive()
    }

    /// The validator that cast the vote.
    pub fn validator(&self) -> (r: ValidatorIndex)
        ensures
            r == self.validator_spec(),
    {
        match self {
            Vote::Backing { validator_index, .. } => *validator_index,
            Vote::ApprovalCheck { sfs } => sfs.validator_index,
            Vote::DisputePositive { sfs } => sfs.validator_index,
            Vote::DisputeNegative { sfs } => sfs.validator_index,
        }
    }

    /// The candidate the vote is on.
    pub fn candidate_hash(&self) -> (r: CandidateHash)
        ensures
            r == self.candidate_spec(),
    {
        match self {
            Vote::Backing { candidate_hash, .. } => *candidate_hash,
            Vote::ApprovalCheck { sfs } => sfs.candidate_hash,
            Vote::DisputePositive { sfs } => sfs.candidate_hash,
            Vote::DisputeNegative { sfs } => sfs.candidate_hash,
        }
    }

    /// The bytes under which the vote is stored.
    pub fn encode(&self) -> (r: Vec<u8>)
        ensures
            r@ == vote_bytes(*self),
    {
        let mut out: Vec<u8> = Vec::new();
        match self {
            Vote::Backing { attestation, validator_index, candidate_hash } => {
                out.push(0);
                match attestation {
                    ValidityAttestation::Implicit(sig) => {
                        out.push(0);
                        push_array(&mut out, &sig.bytes);
                    },
                    ValidityAttestation::Explicit(sig) => {
                        out.push(1);
                        push_array(&mut out, &sig.bytes);
                    },
                }
                push_le32(&mut out, *validator_index);
                push_array(&mut out, &candidate_hash.bytes);
            },
            Vote::ApprovalCheck { sfs } => {
                out.push(1);
                push_statement(&mut out, sfs);
            },
            Vote::DisputePositive { sfs } => {
                out.push(2);
                push_statement(&mut out, sfs);
            },
            Vote::DisputeNegative { sfs } => {
                out.push(3);
                push_statement(&mut out, sfs);
            },
        }
        assert(out@ =~= vote_bytes(*self));
        out
    }
}

/// The vote stored as `b`, if any.
pub open spec fn vote_of_bytes(b: Seq<u8>) -> Option<Vote> {
    if exists|v: Vote| vote_bytes(v) == b {
        Some(choose|v: Vote| vote_bytes(v) == b)
    } else {
        None
    }
}

impl Vote {
    /// The vote stored as `b`; `None` for bytes that no vote is stored as.
    pub fn decode(b: &Vec<u8>) -> (r: Option<Vote>)
        ensures
            r is Some ==> vote_bytes(r->0) == b@,
            forall|v: Vote| vote_bytes(v) == b@ ==> r == Some(v),
    {
        let len = b.len();
        if len == 0 {
            return None;
        }
        let tag = b[0];
        if tag == 0 {
            if len != 102 || b[1] > 1 {
                proof {
                    assert forall|v: Vote| vote_bytes(v) != b@ by {
                        if vote_bytes(v) == b@ {
                            assert(vote_bytes(v)[0] == vote_tag(v));
                            if let Vote::Backing { attestation, .. } = v {
                                assert(vote_bytes(v)[1] == attestation_bytes(attestation)[0]);
                            }
                        }
                    }
                }
                return None;
            }
            let sig = Signature { bytes: read_array(b, 2) };
            let attestation = if b[1] == 0 {
                ValidityAttestation::Implicit(sig)
            } else {
                ValidityAttestation::Explicit(sig)
            };
            let validator_index = read_le32(b, 66);
            let candidate_hash = CandidateHash { bytes: read_array(b, 70) };
            let r = Vote::Backing { attestation, validator_index, candidate_hash };
            proof {
                lemma_le32_of_bytes(b@.subrange(66, 70));
                assert(vote_bytes(r) =~= b@);
                assert forall|v: Vote| vote_bytes(v) == b@ implies r == v by {
                    lemma_vote_bytes_injective(v, r);
                }
            }
            Some(r)
        } else if tag <= 3 {
            if len != 101 {
                proof {
                    assert forall|v: Vote| vote_bytes(v) != b@ by {
                        if vote_bytes(v) == b@ {
                            assert(vote_bytes(v)[0] == vote_tag(v));
                        }
                    }
                }
                return None;
            }
            let sfs = read_statement(b, 1);
            let r = if tag == 1 {
                Vote::ApprovalCheck { sfs }
            } else if tag == 2 {
                Vote::DisputePositive { sfs }
            } else {
                Vote::DisputeNegative { sfs }
            };
            proof {
                assert(vote_bytes(r) =~= b@);
                assert forall|v: Vote| vote_bytes(v) == b@ implies r == v by {
                    lemma_vote_bytes_injective(v, r);
                }
            }
            Some(r)
        } else {
            proof {
                assert forall|v: Vote| vote_bytes(v) != b@ by {
                    if vote_bytes(v) == b@ {
                        assert(vote_bytes(v)[0] == vote_tag(v));
                    }
                }
            }
            None
        }
    }
}

proof fn lemma_statement_bytes_injective(s1: SignedStatement, s2: SignedStatement)
    requires
        statement_bytes(s1) == statement_bytes(s2),
    ensures
        s1 == s2,
{
    let w = statement_bytes(s1);
    lemma_le32_round_trip(s1.validator_index);
    lemma_le32_round_trip(s2.validator_index);
    assert(le32(s1.validator_index) =~= w.subrange(0, 4));
    assert(le32(s2.validator_index) =~= w.subrange(0, 4));
    assert(s1.candidate_hash.bytes@ =~= w.subrange(4, 36));
    assert(s2.candidate_hash.bytes@ =~= w.subrange(4, 36));
    assert(s1.candidate_hash.bytes =~= s2.candidate_hash.bytes);
    assert(s1.signature.bytes@ =~= w.subrange(36, 100));
    assert(s2.signature.bytes@ =~= w.subrange(36, 100));
    assert(s1.signature.bytes =~= s2.signature.bytes);
}

/// Different votes are stored under different bytes.
pub proof fn lemma_vote_bytes_injective(v1: Vote, v2: Vote)
    requires
        vote_bytes(v1) == vote_bytes(v2),
    ensures
        v1 == v2,
{
    let w = vote_bytes(v1);
    assert(w[0] == vote_tag(v1));
    assert(vote_bytes(v2)[0] == vote_tag(v2));
    match (v1, v2) {
        (
            Vote::Backing { attestation: a1, validator_index: i1, candidate_hash: h1 },
            Vote::Backing { attestation: a2, validator_index: i2, candidate_hash: h2 },
        ) => {
            assert(w[1] == attestation_bytes(a1)[0]);
            assert(vote_bytes(v2)[1] == attestation_bytes(a2)[0]);
            let g1 = match a1 {
                ValidityAttestation::Implicit(x) => x,
                ValidityAttestation::Explicit(x) => x,
            };
            let g2 = match a2 {
                ValidityAttestation::Implicit(x) => x,
                ValidityAttestation::Explicit(x) => x,
            };
            assert(g1.bytes@ =~= w.subrange(2, 66));
            assert(g2.bytes@ =~= w.subrange(2, 66));
            assert(g1.bytes =~= g2.bytes);
            lemma_le32_round_trip(i1);
            lemma_le32_round_trip(i2);
            assert(le32(i1) =~= w.subrange(66, 70));
            assert(le32(i2) =~= w.subrange(66, 70));
            assert(h1.bytes@ =~= w.subrange(70, 102));
            assert(h2.bytes@ =~= w.subrange(70, 102));
            assert(h1.bytes =~= h2.bytes);
        },
        (Vote::ApprovalCheck { sfs: s1 }, Vote::ApprovalCheck { sfs: s2 }) => {
            assert(statement_bytes(s1) =~= w.subrange(1, 101));
            assert(statement_bytes(s2) =~= w.subrange(1, 101));
            lemma_statement_bytes_injective(s1, s2);
        },
        (Vote::DisputePositive { sfs: s1 }, Vote::DisputePositive { sfs: s2 }) => {
            assert(statement_bytes(s1) =~= w.subrange(1, 101));
            assert(statement_bytes(s2) =~= w.subrange(1, 101));
            lemma_statement_bytes_injective(s1, s2);
        },
        (Vote::DisputeNegative { sfs: s1 }, Vote::DisputeNegative { sfs: s2 }) => {
            assert(statement_bytes(s1) =~= w.subrange(1, 101));
            assert(statement_bytes(s2) =~= w.subrange(1, 101));
            lemma_statement_bytes_injective(s1, s2);
        },
        _ => {},
    }
}

/// `vote_of_bytes` is what decoding gives: the one vote stored as `b`, or
/// `None`.
pub proof fn lemma_vote_of_bytes(b: Seq<u8>, r: Option<Vote>)
    requires
        r is Some ==> vote_bytes(r->0) == b,
        forall|v: Vote| vote_bytes(v) == b ==> r == Some(v),
    ensures
        vote_of_bytes(b) == r,
{
    if exists|v: Vote| vote_bytes(v) == b {
        let v = choose|v: Vote| vote_bytes(v) == b;
        assert(r == Some(v));
    }
}

} // verus!
