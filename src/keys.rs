//! Byte-string keys of the store.
//!
//! Layout:
//! - `vote/prune/waterlevel`: the oldest session that is not pruned yet;
//! - `vote/s_{session}/c_{candidate}/v_{validator}`: the vote itself;
//! - `vote/s_{session}/v_{validator}/c_{candidate}`: a presence marker;
//! - `vote/s_{session}/q_{candidate}`: the running tally of a candidate.
//!
//! Sessions and validators are written in decimal, candidates in lower-case
//! hex. Every key of a session starts with `vote/s_{session}/`; the closing
//! slash keeps the prefixes of two sessions from overlapping.
use vstd::prelude::*;

verus! {

/// Index of a consensus session.
pub type SessionIndex = u32;

/// Seat of a validator within a session.
pub type ValidatorIndex = u32;

/// Identifier of a candidate block.
#[derive(Clone, Copy, Debug, PartialEq, Eq)]
pub struct CandidateHash {
    pub bytes: [u8; 32],
}

/// `k` starts with `p`.
pub open spec fn has_prefix(k: Seq<u8>, p: Seq<u8>) -> bool {
    p.len() <= k.len() && k.subrange(0, p.len() as int) == p
}

/// Decimal digits of `n`, most significant first.
pub open spec fn dec(n: nat) -> Seq<u8>
    decreases n,
{
    if n < 10 {
        seq![(48 + n) as u8]
    } else {
        dec(n / 10).push((48 + n % 10) as u8)
    }
}

/// Lower-case hex digit of `d < 16`.
pub open spec fn hex_digit(d: nat) -> u8 {
    if d < 10 {
        (48 + d) as u8
    } else {
        (87 + d) as u8
    }
}

/// Two lower-case hex digits per byte.
pub open spec fn hex(b: Seq<u8>) -> Seq<u8>
    decreases b.len(),
{
    if b.len() == 0 {
        Seq::empty()
    } else {
        hex(b.drop_last()) + seq![hex_digit(b.last() as nat / 16), hex_digit(b.last() as nat % 16)]
    }
}

/// `vote/s_`
pub open spec fn vote_session_tag() -> Seq<u8> {
    seq![118u8, 111u8, 116u8, 101u8, 47u8, 115u8, 95u8]
}

/// `vote/prune/waterlevel`
pub open spec fn watermark_key_spec() -> Seq<u8> {
    seq![
        118u8, 111u8, 116u8, 101u8, 47u8, 112u8, 114u8, 117u8, 110u8, 101u8, 47u8,
        119u8, 97u8, 116u8, 101u8, 114u8, 108u8, 101u8, 118u8, 101u8, 108u8,
    ]
}

/// `vote/s_{session}/`
pub open spec fn session_prefix_spec(session: nat) -> Seq<u8> {
    vote_session_tag() + dec(session) + seq![47u8]
}

/// `vote/s_{session}/c_{candidate}/v_{validator}`
pub open spec fn candidate_key_spec(session: nat, candidate: Seq<u8>, validator: nat) -> Seq<u8> {
    session_prefix_spec(session) + seq![99u8, 95u8] + hex(candidate) + seq![47u8, 118u8, 95u8]
        + dec(validator)
}

/// `vote/s_{session}/v_{validator}/c_{candidate}`
pub open spec fn validator_key_spec(session: nat, validator: nat, candidate: Seq<u8>) -> Seq<u8> {
    session_prefix_spec(session) + seq![118u8, 95u8] + dec(validator) + seq![47u8, 99u8, 95u8]
        + hex(candidate)
}

/// `vote/s_{session}/v_{validator}/c_`: what the validator-major keys of a
/// validator start with.
pub open spec fn validator_prefix_spec(session: nat, validator: nat) -> Seq<u8> {
    session_prefix_spec(session) + seq![118u8, 95u8] + dec(validator) + seq![47u8, 99u8, 95u8]
}

/// `vote/s_{session}/q_{candidate}`
pub open spec fn tally_key_spec(session: nat, candidate: Seq<u8>) -> Seq<u8> {
    session_prefix_spec(session) + seq![113u8, 95u8] + hex(candidate)
}

fn push_dec(out: &mut Vec<u8>, n: u32)
    ensures
        final(out)@ == old(out)@ + dec(n as nat),
    decreases n,
{
    if n >= 10 {
        push_dec(out, n / 10);
    }
    out.push((48 + n % 10) as u8);
    assert(final(out)@ =~= old(out)@ + dec(n as nat));
}

fn hex_digit_of(d: u8) -> (r: u8)
    requires
        d < 16,
    ensures
        r == hex_digit(d as nat),
{
    if d < 10 {
        48 + d
    } else {
        87 + d
    }
}

fn push_hex(out: &mut Vec<u8>, bytes: &[u8; 32])
    ensures
        final(out)@ == old(out)@ + hex(bytes@),
{
    let mut i: usize = 0;
    while i < 32
        invariant
            i <= 32,
            bytes@.len() == 32,
            out@ == old(out)@ + hex(bytes@.subrange(0, i as int)),
        decreases 32 - i,
    {
        let b = bytes[i];
        out.push(hex_digit_of(b / 16));
        out.push(hex_digit_of(b % 16));
        let ghost next = bytes@.subrange(0, i + 1);
        assert(next.drop_last() =~= bytes@.subrange(0, i as int));
        assert(out@ =~= old(out)@ + hex(next));
        i = i + 1;
    }
    assert(bytes@.subrange(0, 32) =~= bytes@);
}

fn push_session_prefix(out: &mut Vec<u8>, session: SessionIndex)
    ensures
        final(out)@ == old(out)@ + session_prefix_spec(session as nat),
{
    out.push(118);
    out.push(111);
    out.push(116);
    out.push(101);
    out.push(47);
    out.push(115);
    out.push(95);
    push_dec(out, session);
    out.push(47);
    assert(final(out)@ =~= old(out)@ + session_prefix_spec(session as nat));
}

/// The key under which the prune watermark is kept. It lies outside every
/// session prefix.
pub fn watermark_key() -> (r: Vec<u8>)
    ensures
        r@ == watermark_key_spec(),
{
    let r = vec![
        118u8, 111u8, 116u8, 101u8, 47u8, 112u8, 114u8, 117u8, 110u8, 101u8, 47u8,
        119u8, 97u8, 116u8, 101u8, 114u8, 108u8, 101u8, 118u8, 101u8, 108u8,
    ];
    assert(r@ =~= watermark_key_spec());
    r
}

/// The prefix shared by every key of `session`.
pub fn session_prefix(session: SessionIndex) -> (r: Vec<u8>)
    ensures
        r@ == session_prefix_spec(session as nat),
{
    let mut r: Vec<u8> = Vec::new();
    push_session_prefix(&mut r, session);
    assert(r@ =~= session_prefix_spec(session as nat));
    r
}

/// The candidate-major key, which holds the encoded vote.
pub fn candidate_key(session: SessionIndex, candidate: &CandidateHash, validator: ValidatorIndex) -> (r: Vec<u8>)
    ensures
        r@ == candidate_key_spec(session as nat, candidate.bytes@, validator as nat),
{
    let mut r: Vec<u8> = Vec::new();
    push_session_prefix(&mut r, session);
    r.push(99);
    r.push(95);
    push_hex(&mut r, &candidate.bytes);
    r.push(47);
    r.push(118);
    r.push(95);
    push_dec(&mut r, validator);
    assert(r@ =~= candidate_key_spec(session as nat, candidate.bytes@, validator as nat));
    r
}

/// The validator-major key, which holds an empty presence marker.
pub fn validator_key(session: SessionIndex, validator: ValidatorIndex, candidate: &CandidateHash) -> (r: Vec<u8>)
    ensures
        r@ == validator_key_spec(session as nat, validator as nat, candidate.bytes@),
{
    let mut r: Vec<u8> = Vec::new();
    push_session_prefix(&mut r, session);
    r.push(118);
    r.push(95);
    push_dec(&mut r, validator);
    r.push(47);
    r.push(99);
    r.push(95);
    push_hex(&mut r, &candidate.bytes);
    assert(r@ =~= validator_key_spec(session as nat, validator as nat, candidate.bytes@));
    r
}

/// The prefix of the validator-major keys of `validator` in `session`.
pub fn validator_prefix(session: SessionIndex, validator: ValidatorIndex) -> (r: Vec<u8>)
    ensures
        r@ == validator_prefix_spec(session as nat, validator as nat),
        forall|c: Seq<u8>|
            #[trigger] validator_key_spec(session as nat, validator as nat, c) == r@ + hex(c),
{
    let mut r: Vec<u8> = Vec::new();
    push_session_prefix(&mut r, session);
    r.push(118);
    r.push(95);
    push_dec(&mut r, validator);
    r.push(47);
    r.push(99);
    r.push(95);
    assert(r@ =~= validator_prefix_spec(session as nat, validator as nat));
    assert forall|c: Seq<u8>| #[trigger] validator_key_spec(session as nat, validator as nat, c) == r@ + hex(c) by {
        assert(validator_key_spec(session as nat, validator as nat, c) =~= r@ + hex(c));
    }
    r
}

/// The key of the running tally of positive and negative votes on a candidate.
pub fn tally_key(session: SessionIndex, candidate: &CandidateHash) -> (r: Vec<u8>)
    ensures
        r@ == tally_key_spec(session as nat, candidate.bytes@),
{
    let mut r: Vec<u8> = Vec::new();
    push_session_prefix(&mut r, session);
    r.push(113);
    r.push(95);
    push_hex(&mut r, &candidate.bytes);
    assert(r@ =~= tally_key_spec(session as nat, candidate.bytes@));
    r
}


proof fn lemma_dec_digits(n: nat)
    ensures
        dec(n).len() >= 1,
        forall|i: int| 0 <= i < dec(n).len() ==> 48 <= #[trigger] dec(n)[i] <= 57,
    decreases n,
{
    if n >= 10 {
        lemma_dec_digits(n / 10);
    }
}

proof fn lemma_dec_injective(a: nat, b: nat)
    requires
        dec(a) == dec(b),
    ensures
        a == b,
    decreases a,
{
    lemma_dec_digits(a / 10);
    lemma_dec_digits(b / 10);
    if a >= 10 && b >= 10 {
        assert(dec(a / 10) == dec(a).drop_last());
        assert(dec(b / 10) == dec(b).drop_last());
        lemma_dec_injective(a / 10, b / 10);
        assert(dec(a) == dec(a / 10).push((48 + a % 10) as u8));
        assert(dec(b) == dec(b / 10).push((48 + b % 10) as u8));
        assert(dec(a).last() == (48 + a % 10) as u8);
        assert(dec(b).last() == (48 + b % 10) as u8);
        assert(a % 10 == b % 10);
        assert(a == b) by (nonlinear_arith)
            requires
                a / 10 == b / 10,
                a % 10 == b % 10,
        ;
    } else if a >= 10 {
        assert(dec(a) == dec(a / 10).push((48 + a % 10) as u8));
        assert(dec(b) == seq![(48 + b) as u8]);
        assert(dec(a).len() == dec(a / 10).len() + 1);
    } else if b >= 10 {
        assert(dec(b) == dec(b / 10).push((48 + b % 10) as u8));
        assert(dec(a) == seq![(48 + a) as u8]);
        assert(dec(b).len() == dec(b / 10).len() + 1);
    } else {
        assert(dec(a) == seq![(48 + a) as u8]);
        assert(dec(b) == seq![(48 + b) as u8]);
        assert(dec(a)[0] == dec(b)[0]);
        assert(dec(a)[0] == (48 + a) as u8);
        assert(dec(b)[0] == (48 + b) as u8);
        assert((48 + a) as u8 == 48 + a);
        assert((48 + b) as u8 == 48 + b);
    }
}

proof fn lemma_prefix_not_nested(s1: nat, s2: nat)
    requires
        s1 != s2,
    ensures
        !has_prefix(session_prefix_spec(s2), session_prefix_spec(s1)),
{
    let p1 = session_prefix_spec(s1);
    let p2 = session_prefix_spec(s2);
    let l1 = dec(s1).len() as int;
    let l2 = dec(s2).len() as int;
    lemma_dec_digits(s1);
    lemma_dec_digits(s2);
    if has_prefix(p2, p1) {
        assert(p1[7 + l1] == 47u8);
        assert(p2[7 + l1] == p1[7 + l1]);
        if l1 < l2 {
            assert(p2[7 + l1] == dec(s2)[l1]);
        }
        assert(l1 == l2);
        assert(dec(s1) =~= p1.subrange(7, 7 + l1));
        assert(dec(s2) =~= p2.subrange(7, 7 + l2));
        assert(p2.subrange(0, p1.len() as int) == p1);
        assert(dec(s1) =~= dec(s2));
        lemma_dec_injective(s1, s2);
    }
}

pub proof fn lemma_hex_index(b: Seq<u8>)
    ensures
        hex(b).len() == 2 * b.len(),
        forall|i: int|
            0 <= i < b.len() ==> hex(b)[2 * i] == hex_digit(#[trigger] b[i] as nat / 16) && hex(b)[2 * i + 1]
                == hex_digit(b[i] as nat % 16),
    decreases b.len(),
{
    if b.len() > 0 {
        lemma_hex_index(b.drop_last());
        assert forall|i: int| 0 <= i < b.len() implies hex(b)[2 * i] == hex_digit(#[trigger] b[i] as nat / 16)
            && hex(b)[2 * i + 1] == hex_digit(b[i] as nat % 16) by {
            if i < b.len() - 1 {
                assert(b.drop_last()[i] == b[i]);
            }
        }
    }
}

/// The value of a lower-case hex digit.
fn nibble_of(ch: u8) -> (r: Option<u8>)
    ensures
        r is Some ==> r->0 < 16 && hex_digit(r->0 as nat) == ch,
        forall|d: nat| d < 16 && hex_digit(d) == ch ==> r == Some(d as u8),
{
    if 48 <= ch && ch <= 57 {
        Some(ch - 48)
    } else if 97 <= ch && ch <= 102 {
        Some(ch - 87)
    } else {
        None
    }
}

/// Reads the candidate written in hex at `k[at..at + 64]`.
pub(crate) fn parse_candidate(k: &Vec<u8>, at: usize) -> (r: Option<CandidateHash>)
    requires
        at + 64 == k@.len(),
    ensures
        r is Some ==> hex(r->0.bytes@) == k@.subrange(at as int, at + 64),
        forall|c: CandidateHash| hex(c.bytes@) == k@.subrange(at as int, at + 64) ==> r == Some(c),
{
    let ghost h = k@.subrange(at as int, at + 64);
    let len = k.len();
    let mut bytes: [u8; 32] = [0u8; 32];
    let mut i: usize = 0;
    while i < 32
        invariant
            i <= 32,
            len == k@.len(),
            at + 64 == k@.len(),
            h == k@.subrange(at as int, at + 64),
            bytes@.len() == 32,
            forall|j: int|
                0 <= j < i ==> h[2 * j] == hex_digit(#[trigger] bytes@[j] as nat / 16) && h[2 * j + 1] == hex_digit(
                    bytes@[j] as nat % 16,
                ),
        decreases 32 - i,
    {
        let hi = nibble_of(k[at + 2 * i]);
        let lo = nibble_of(k[at + 2 * i + 1]);
        if hi.is_none() || lo.is_none() {
            proof {
                assert forall|c: CandidateHash| hex(c.bytes@) != h by {
                    lemma_hex_index(c.bytes@);
                    if hex(c.bytes@) == h {
                        let b = c.bytes@[i as int];
                        assert(h[2 * i] == hex_digit(b as nat / 16));
                        assert(h[2 * i + 1] == hex_digit(b as nat % 16));
                    }
                }
            }
            return None;
        }
        let hv = hi.unwrap();
        let lv = lo.unwrap();
        let byte = hv * 16 + lv;
        assert(byte as nat / 16 == hv && byte as nat % 16 == lv) by (nonlinear_arith)
            requires
                byte == hv * 16 + lv,
                lv < 16,
                hv < 16,
        ;
        bytes[i] = byte;
        i = i + 1;
    }
    let c = CandidateHash { bytes };
    proof {
        lemma_hex_index(c.bytes@);
        assert forall|x: int| 0 <= x < 64 implies hex(c.bytes@)[x] == h[x] by {
            let j = x / 2;
            assert(c.bytes@[j] == bytes@[j]);
            if x % 2 == 0 {
                assert(x == 2 * j);
            } else {
                assert(x == 2 * j + 1);
            }
        }
        assert(hex(c.bytes@) =~= h);
        assert forall|c2: CandidateHash| hex(c2.bytes@) == h implies c2 == c by {
            lemma_hex_index(c2.bytes@);
            assert forall|j: int| 0 <= j < 32 implies c2.bytes@[j] == c.bytes@[j] by {
                let x = c2.bytes@[j];
                let y = c.bytes@[j];
                assert(hex_digit(x as nat / 16) == hex_digit(y as nat / 16));
                assert(hex_digit(x as nat % 16) == hex_digit(y as nat % 16));
                assert(x as nat / 16 == y as nat / 16);
                assert(x as nat % 16 == y as nat % 16);
                assert(x == y) by (nonlinear_arith)
                    requires
                        x as nat / 16 == y as nat / 16,
                        x as nat % 16 == y as nat % 16,
                ;
            }
            assert(c2.bytes@ =~= c.bytes@);
            assert(c2.bytes =~= c.bytes);
        }
    }
    Some(c)
}

proof fn lemma_hex_injective(a: Seq<u8>, b: Seq<u8>)
    requires
        a.len() == b.len(),
        hex(a) == hex(b),
    ensures
        a == b,
{
    lemma_hex_index(a);
    lemma_hex_index(b);
    assert forall|j: int| 0 <= j < a.len() implies a[j] == b[j] by {
        let x = a[j];
        let y = b[j];
        assert(hex(a)[2 * j] == hex(b)[2 * j]);
        assert(hex(a)[2 * j + 1] == hex(b)[2 * j + 1]);
        assert(x as nat / 16 == y as nat / 16);
        assert(x as nat % 16 == y as nat % 16);
        assert(x == y) by (nonlinear_arith)
            requires
                x as nat / 16 == y as nat / 16,
                x as nat % 16 == y as nat % 16,
        ;
    }
    assert(a =~= b);
}

/// Candidate-major keys are injective: different votes never share a key.
pub proof fn lemma_candidate_key_injective(
    s1: SessionIndex,
    c1: CandidateHash,
    v1: ValidatorIndex,
    s2: SessionIndex,
    c2: CandidateHash,
    v2: ValidatorIndex,
)
    requires
        candidate_key_spec(s1 as nat, c1.bytes@, v1 as nat) == candidate_key_spec(s2 as nat, c2.bytes@, v2 as nat),
    ensures
        s1 == s2,
        c1 == c2,
        v1 == v2,
{
    let k = candidate_key_spec(s1 as nat, c1.bytes@, v1 as nat);
    lemma_vote_keys(s1 as nat, c1.bytes@, v1 as nat);
    lemma_vote_keys(s2 as nat, c2.bytes@, v2 as nat);
    if s1 != s2 {
        lemma_session_prefixes_disjoint(s1, s2, k);
    }
    let p = session_prefix_spec(s1 as nat).len() as int;
    lemma_hex_index(c1.bytes@);
    lemma_hex_index(c2.bytes@);
    assert(hex(c1.bytes@) =~= k.subrange(p + 2, p + 66));
    assert(hex(c2.bytes@) =~= k.subrange(p + 2, p + 66));
    lemma_hex_injective(c1.bytes@, c2.bytes@);
    assert(c1.bytes =~= c2.bytes);
    assert(dec(v1 as nat) =~= k.subrange(p + 69, k.len() as int));
    assert(dec(v2 as nat) =~= k.subrange(p + 69, k.len() as int));
    lemma_dec_injective(v1 as nat, v2 as nat);
}

/// A candidate-major key is neither a validator-major key nor a tally key.
pub proof fn lemma_key_kinds_differ(s: nat, c1: Seq<u8>, v1: nat, c2: Seq<u8>, v2: nat)
    ensures
        candidate_key_spec(s, c1, v1) != validator_key_spec(s, v2, c2),
        candidate_key_spec(s, c1, v1) != tally_key_spec(s, c2),
{
    let p = session_prefix_spec(s).len() as int;
    assert(candidate_key_spec(s, c1, v1)[p] == 99u8);
    assert(validator_key_spec(s, v2, c2)[p] == 118u8);
    assert(tally_key_spec(s, c2)[p] == 113u8);
}

/// The key ranges of two different sessions do not overlap: no key starts
/// with the prefixes of both.
pub proof fn lemma_session_prefixes_disjoint(s1: SessionIndex, s2: SessionIndex, k: Seq<u8>)
    requires
        s1 != s2,
    ensures
        !(has_prefix(k, session_prefix_spec(s1 as nat)) && has_prefix(k, session_prefix_spec(s2 as nat))),
{
    let p1 = session_prefix_spec(s1 as nat);
    let p2 = session_prefix_spec(s2 as nat);
    lemma_prefix_not_nested(s1 as nat, s2 as nat);
    lemma_prefix_not_nested(s2 as nat, s1 as nat);
    if has_prefix(k, p1) && has_prefix(k, p2) {
        if p1.len() <= p2.len() {
            assert(p2.subrange(0, p1.len() as int) =~= k.subrange(0, p1.len() as int));
        } else {
            assert(p1.subrange(0, p2.len() as int) =~= k.subrange(0, p2.len() as int));
        }
    }
}

/// The watermark key lies under no session prefix.
pub proof fn lemma_watermark_key_outside_sessions(s: nat)
    ensures
        !has_prefix(watermark_key_spec(), session_prefix_spec(s)),
{
    let p = session_prefix_spec(s);
    lemma_dec_digits(s);
    if has_prefix(watermark_key_spec(), p) {
        assert(watermark_key_spec()[5] == p[5]);
    }
}

/// The three keys of one vote lie under its session's prefix and differ.
pub proof fn lemma_vote_keys(session: nat, candidate: Seq<u8>, validator: nat)
    ensures
        has_prefix(candidate_key_spec(session, candidate, validator), session_prefix_spec(session)),
        has_prefix(validator_key_spec(session, validator, candidate), session_prefix_spec(session)),
        has_prefix(tally_key_spec(session, candidate), session_prefix_spec(session)),
        candidate_key_spec(session, candidate, validator) != validator_key_spec(session, validator, candidate),
        candidate_key_spec(session, candidate, validator) != tally_key_spec(session, candidate),
        validator_key_spec(session, validator, candidate) != tally_key_spec(session, candidate),
        candidate_key_spec(session, candidate, validator) != watermark_key_spec(),
        validator_key_spec(session, validator, candidate) != watermark_key_spec(),
        tally_key_spec(session, candidate) != watermark_key_spec(),
{
    let p = session_prefix_spec(session);
    let ck = candidate_key_spec(session, candidate, validator);
    let vk = validator_key_spec(session, validator, candidate);
    let tk = tally_key_spec(session, candidate);
    assert(ck.subrange(0, p.len() as int) =~= p);
    assert(vk.subrange(0, p.len() as int) =~= p);
    assert(tk.subrange(0, p.len() as int) =~= p);
    assert(ck[p.len() as int] == 99u8);
    assert(vk[p.len() as int] == 118u8);
    assert(tk[p.len() as int] == 113u8);
    lemma_watermark_key_outside_sessions(session);
}

} // verus!
