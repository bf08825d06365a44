use votesdb::keys::{candidate_key, session_prefix, tally_key, validator_key, watermark_key, CandidateHash};
use votesdb::quorum::{check_for_supermajority, CandidateQuorum, Threshold};
use votesdb::store::{VoteEvent, VotesDB};
use votesdb::vote::{BackedCandidate, Signature, SignedStatement, ValidityAttestation, Vote};

fn hash(b: u8) -> CandidateHash {
    CandidateHash { bytes: [b; 32] }
}

fn statement(validator: u32, candidate: CandidateHash) -> SignedStatement {
    SignedStatement { validator_index: validator, candidate_hash: candidate, signature: Signature { bytes: [7; 64] } }
}

fn backing(validator: u32, candidate: CandidateHash) -> Vote {
    Vote::Backing {
        attestation: ValidityAttestation::Implicit(Signature { bytes: [1; 64] }),
        validator_index: validator,
        candidate_hash: candidate,
    }
}

fn dispute_positive(validator: u32, candidate: CandidateHash) -> Vote {
    Vote::DisputePositive { sfs: statement(validator, candidate) }
}

fn dispute_negative(validator: u32, candidate: CandidateHash) -> Vote {
    Vote::DisputeNegative { sfs: statement(validator, candidate) }
}

fn two_thirds() -> Threshold {
    Threshold::two_thirds()
}

fn text(b: &[u8]) -> String {
    String::from_utf8(b.to_vec()).unwrap()
}

#[test]
fn key_layout() {
    let c = CandidateHash { bytes: [0xab; 32] };
    let hex = "ab".repeat(32);
    assert_eq!(text(&candidate_key(5, &c, 3)), format!("vote/s_5/c_{}/v_3", hex));
    assert_eq!(text(&validator_key(5, 3, &c)), format!("vote/s_5/v_3/c_{}", hex));
    assert_eq!(text(&tally_key(12, &c)), format!("vote/s_12/q_{}", hex));
    assert_eq!(text(&session_prefix(1234567890)), "vote/s_1234567890/");
    assert_eq!(text(&session_prefix(0)), "vote/s_0/");
    assert_eq!(text(&watermark_key()), "vote/prune/waterlevel");
    let mut bytes = [0u8; 32];
    bytes[0] = 0x0f;
    bytes[31] = 0xf0;
    let k = text(&candidate_key(u32::MAX, &CandidateHash { bytes }, 0));
    assert!(k.starts_with("vote/s_4294967295/c_0f00"));
    assert!(k.ends_with("00f0/v_0"));
}

#[test]
fn prefix_isolation() {
    let mut keys: Vec<(u32, Vec<u8>)> = Vec::new();
    for s in [1u32, 10, 100] {
        for c in 0..3u8 {
            for v in [1u32, 11, 111] {
                keys.push((s, candidate_key(s, &hash(c), v)));
                keys.push((s, validator_key(s, v, &hash(c))));
            }
        }
    }
    for i in 0..keys.len() {
        for j in 0..keys.len() {
            if i != j {
                assert_ne!(keys[i].1, keys[j].1);
            }
        }
        for s in [1u32, 10, 100] {
            assert_eq!(keys[i].1.starts_with(&session_prefix(s)), keys[i].0 == s);
        }
    }
    assert!(!session_prefix(10).starts_with(&session_prefix(1)));
}

#[test]
fn supermajority_evaluation() {
    let t = two_thirds();
    assert_eq!(check_for_supermajority(7, 0, 10, t), Some(CandidateQuorum::Valid));
    assert_eq!(check_for_supermajority(6, 0, 10, t), None);
    assert_eq!(check_for_supermajority(0, 7, 10, t), Some(CandidateQuorum::Invalid));
    assert_eq!(check_for_supermajority(3, 6, 10, t), None);
    assert_eq!(check_for_supermajority(0, 0, 0, t), None);
    assert_eq!(check_for_supermajority(u32::MAX, 0, u32::MAX, t), Some(CandidateQuorum::Valid));
    let half = Threshold { numerator: 1, denominator: 2 };
    assert_eq!(check_for_supermajority(5, 6, 10, half), Some(CandidateQuorum::Invalid));
}

#[test]
fn vote_accessors() {
    let c = hash(9);
    assert!(backing(1, c).positive());
    assert!(Vote::ApprovalCheck { sfs: statement(2, c) }.positive());
    assert!(dispute_positive(3, c).positive());
    assert!(dispute_negative(4, c).negative());
    assert!(!dispute_negative(4, c).positive());
    assert_eq!(backing(1, c).validator(), 1);
    assert_eq!(dispute_negative(4, c).validator(), 4);
    assert_eq!(dispute_negative(4, c).candidate_hash(), c);
    let e = dispute_positive(3, c).encode();
    assert_eq!(e.len(), 1 + 4 + 32 + 64);
    assert_eq!(e[0], 2);
    assert_eq!(&e[1..5], &[3, 0, 0, 0]);
    let b = backing(258, c).encode();
    assert_eq!(b.len(), 1 + 1 + 64 + 4 + 32);
    assert_eq!(&b[66..70], &[2, 1, 0, 0]);
}

#[test]
fn storing_twice_is_a_no_op() {
    let mut db = VotesDB::new_in_memory();
    let c = hash(1);
    let v = backing(3, c);
    assert_eq!(db.store_votes(5, &vec![v], 10, two_thirds()), vec![VoteEvent::Stored]);
    let key = candidate_key(5, &c, 3);
    let stored = db.read_entry(&key);
    assert_eq!(stored, Some(v.encode()));
    assert_eq!(db.read_entry(&validator_key(5, 3, &c)), Some(Vec::new()));
    assert_eq!(db.store_votes(5, &vec![v], 10, two_thirds()), vec![VoteEvent::Duplicate]);
    assert_eq!(db.read_entry(&key), stored);
    assert_eq!(db.read_entry(&tally_key(5, &c)), Some(vec![1, 0, 0, 0, 0, 0, 0, 0]));
}

#[test]
fn duplicate_inside_one_batch() {
    let mut db = VotesDB::new_in_memory();
    let c = hash(1);
    let v = backing(3, c);
    let events = db.store_votes(5, &vec![v, v, dispute_negative(3, c)], 10, two_thirds());
    assert_eq!(
        events,
        vec![
            VoteEvent::Stored,
            VoteEvent::Duplicate,
            VoteEvent::DoubleVote { candidate: c, validator: 3, previous: Some(v), vote: dispute_negative(3, c) },
        ]
    );
    assert_eq!(db.read_entry(&candidate_key(5, &c, 3)), Some(v.encode()));
}

#[test]
fn double_vote_keeps_first() {
    let mut db = VotesDB::new_in_memory();
    let c = hash(2);
    let first = dispute_positive(3, c);
    let second = dispute_negative(3, c);
    assert_eq!(db.store_vote(5, first, 10, two_thirds()), VoteEvent::Stored);
    assert_eq!(
        db.store_vote(5, second, 10, two_thirds()),
        VoteEvent::DoubleVote { candidate: c, validator: 3, previous: Some(first), vote: second }
    );
    assert_eq!(db.read_entry(&candidate_key(5, &c, 3)), Some(first.encode()));
}

#[test]
fn dispute_detection() {
    let mut db = VotesDB::new_in_memory();
    let c = hash(3);
    assert_eq!(db.store_vote(5, dispute_positive(1, c), 10, two_thirds()), VoteEvent::Stored);
    assert_eq!(
        db.store_vote(5, dispute_negative(2, c), 10, two_thirds()),
        VoteEvent::DisputeDetected { candidate: c, vote: dispute_negative(2, c) }
    );
    assert_eq!(db.store_vote(5, dispute_negative(4, c), 10, two_thirds()), VoteEvent::Stored);
    assert_eq!(db.store_vote(5, dispute_positive(6, c), 10, two_thirds()), VoteEvent::Stored);
    assert_eq!(db.read_entry(&tally_key(5, &c)), Some(vec![2, 0, 0, 0, 2, 0, 0, 0]));
}

#[test]
fn dispute_opened_by_positive_vote() {
    let mut db = VotesDB::new_in_memory();
    let c = hash(3);
    let events = db.store_votes(8, &vec![dispute_negative(1, c), backing(2, c)], 10, two_thirds());
    assert_eq!(events, vec![VoteEvent::Stored, VoteEvent::DisputeDetected { candidate: c, vote: backing(2, c) }]);
}

#[test]
fn supermajority_on_seventh_vote() {
    let mut db = VotesDB::new_in_memory();
    let c = hash(4);
    for v in 0..6u32 {
        assert_eq!(db.store_vote(5, backing(v, c), 10, two_thirds()), VoteEvent::Stored);
    }
    assert_eq!(
        db.store_vote(5, backing(6, c), 10, two_thirds()),
        VoteEvent::SupermajorityReached { candidate: c, quorum: CandidateQuorum::Valid }
    );
    assert_eq!(db.store_vote(5, backing(7, c), 10, two_thirds()), VoteEvent::Stored);
}

#[test]
fn supermajority_in_one_batch() {
    let mut db = VotesDB::new_in_memory();
    let c = hash(5);
    let votes: Vec<Vote> = (0..7u32).map(|v| dispute_negative(v, c)).collect();
    let events = db.store_votes(2, &votes, 10, two_thirds());
    assert_eq!(events.len(), 7);
    for e in &events[..6] {
        assert_eq!(*e, VoteEvent::Stored);
    }
    assert_eq!(events[6], VoteEvent::SupermajorityReached { candidate: c, quorum: CandidateQuorum::Invalid });
}

#[test]
fn obsolete_votes_are_discarded() {
    let mut db = VotesDB::new_in_memory();
    db.prune_votes_older_than_session(5);
    assert_eq!(db.oldest_session_waterlevel(), 5);
    let c = hash(6);
    let d = hash(7);
    let events = db.store_votes(3, &vec![backing(1, c), dispute_negative(2, d)], 10, two_thirds());
    assert_eq!(
        events,
        vec![VoteEvent::ObsoleteVoteDiscarded { candidate: c }, VoteEvent::ObsoleteVoteDiscarded { candidate: d }]
    );
    assert_eq!(db.read_entry(&candidate_key(3, &c, 1)), None);
    assert_eq!(db.read_entry(&tally_key(3, &c)), None);
    assert_eq!(db.store_vote(5, backing(1, c), 10, two_thirds()), VoteEvent::Stored);
}

#[test]
fn prune_completeness_and_boundary() {
    let mut db = VotesDB::new_in_memory();
    let c = hash(8);
    for s in 0..8u32 {
        for v in 0..3u32 {
            assert_eq!(db.store_vote(s, backing(v, c), 100, two_thirds()), VoteEvent::Stored);
        }
    }
    assert_eq!(db.oldest_session_waterlevel(), 0);
    db.prune_votes_older_than_session(5);
    assert_eq!(db.oldest_session_waterlevel(), 5);
    for s in 0..8u32 {
        for v in 0..3u32 {
            let present = db.read_entry(&candidate_key(s, &c, v)).is_some();
            assert_eq!(present, s >= 5);
            assert_eq!(db.read_entry(&validator_key(s, v, &c)).is_some(), s >= 5);
        }
        assert_eq!(db.read_entry(&tally_key(s, &c)).is_some(), s >= 5);
    }
    db.prune_votes_older_than_session(5);
    assert_eq!(db.oldest_session_waterlevel(), 5);
    assert!(db.read_entry(&candidate_key(5, &c, 0)).is_some());
    db.prune_votes_older_than_session(2);
    assert_eq!(db.oldest_session_waterlevel(), 5);
    assert_eq!(db.store_vote(5, backing(0, c), 100, two_thirds()), VoteEvent::Duplicate);
}

#[test]
fn prune_spans_several_transactions() {
    let mut db = VotesDB::new_in_memory();
    let c = hash(9);
    let votes: Vec<Vote> = (0..1500u32).map(|v| backing(v, c)).collect();
    let events = db.store_votes(1, &votes, 10000, two_thirds());
    assert!(events.iter().all(|e| *e == VoteEvent::Stored));
    db.store_vote(2, backing(0, c), 10000, two_thirds());
    db.prune_votes_older_than_session(2);
    assert_eq!(db.oldest_session_waterlevel(), 2);
    assert_eq!(db.read_entry(&candidate_key(1, &c, 0)), None);
    assert_eq!(db.read_entry(&candidate_key(1, &c, 1499)), None);
    assert_eq!(db.read_entry(&validator_key(1, 777, &c)), None);
    assert!(db.read_entry(&candidate_key(2, &c, 0)).is_some());
}

#[test]
fn session_change_keeps_retention_window() {
    let mut db = VotesDB::new_in_memory();
    let c = hash(10);
    db.store_vote(4, backing(0, c), 10, two_thirds());
    db.store_vote(5, backing(0, c), 10, two_thirds());
    db.on_session_change(50);
    assert_eq!(db.oldest_session_waterlevel(), 0);
    db.on_session_change(105);
    assert_eq!(db.oldest_session_waterlevel(), 5);
    assert_eq!(db.read_entry(&candidate_key(4, &c, 0)), None);
    assert!(db.read_entry(&candidate_key(5, &c, 0)).is_some());
}

#[test]
fn query_lists_candidates_of_validator() {
    let mut db = VotesDB::new_in_memory();
    let a = hash(0x11);
    let b = hash(0xfe);
    db.store_vote(5, backing(3, a), 10, two_thirds());
    db.store_vote(5, dispute_negative(3, b), 10, two_thirds());
    db.store_vote(5, backing(31, a), 10, two_thirds());
    db.store_vote(6, backing(3, a), 10, two_thirds());
    let mut found = db.query(5, 3);
    found.sort_by(|x, y| x.bytes.cmp(&y.bytes));
    assert_eq!(found, vec![a, b]);
    assert_eq!(db.query(5, 31), vec![a]);
    assert_eq!(db.query(5, 4), vec![]);
    assert_eq!(db.query(6, 3), vec![a]);
    db.prune_votes_older_than_session(6);
    assert_eq!(db.query(5, 3), vec![]);
}

#[test]
fn decode_round_trip() {
    let c = hash(0x42);
    let mut sig = [0u8; 64];
    sig[5] = 9;
    let votes = vec![
        backing(7, c),
        Vote::Backing {
            attestation: ValidityAttestation::Explicit(Signature { bytes: sig }),
            validator_index: 70000,
            candidate_hash: c,
        },
        Vote::ApprovalCheck { sfs: statement(1, c) },
        dispute_positive(2, c),
        dispute_negative(u32::MAX, c),
    ];
    for v in &votes {
        assert_eq!(Vote::decode(&v.encode()), Some(*v));
    }
    assert_eq!(Vote::decode(&vec![]), None);
    assert_eq!(Vote::decode(&vec![4; 101]), None);
    let mut bad = backing(7, c).encode();
    bad[1] = 2;
    assert_eq!(Vote::decode(&bad), None);
    let mut short = dispute_positive(2, c).encode();
    short.pop();
    assert_eq!(Vote::decode(&short), None);
}

#[test]
fn backed_candidate_votes() {
    let c = hash(0x21);
    let a = ValidityAttestation::Implicit(Signature { bytes: [3; 64] });
    let b = ValidityAttestation::Explicit(Signature { bytes: [4; 64] });
    let bc = BackedCandidate { candidate_hash: c, validator_indices: vec![5, 9, 11], validity_votes: vec![a, b] };
    assert_eq!(
        bc.votes(),
        vec![
            Vote::Backing { attestation: a, validator_index: 5, candidate_hash: c },
            Vote::Backing { attestation: b, validator_index: 9, candidate_hash: c },
        ]
    );
    let mut db = VotesDB::new_in_memory();
    assert_eq!(db.store_votes(1, &bc.votes(), 3, two_thirds()), vec![VoteEvent::Stored, VoteEvent::Stored]);
}
