use parachain_consensus::follower::{BlockOrigin, BlockStatus, ImportNotification, ParachainFollower};
use parachain_consensus::hash::BlockHash;
use parachain_consensus::header::{decode_header, Header};
use parachain_consensus::recovery::CandidateRecovery;

fn header(number: u8, tag: u8) -> Header {
    let mut v = vec![tag; 32];
    v.push(number << 2);
    v.extend_from_slice(&[1u8; 32]);
    v.extend_from_slice(&[2u8; 32]);
    v.push(0);
    decode_header(&v).expect("decodes")
}

fn hash(tag: u8) -> BlockHash {
    BlockHash::from_bytes([tag; 32])
}

#[test]
fn two_candidates_get_delays_below_the_slot() {
    let mut f = ParachainFollower::new(6000);
    let a = header(5, 1);
    let b = header(5, 2);
    let da = f.handle_pending_candidate(&a, vec![0xA], 3, Some(BlockStatus::Unknown)).expect("scheduled");
    let db = f.handle_pending_candidate(&b, vec![0xB], 3, Some(BlockStatus::Unknown)).expect("scheduled");
    assert!(da < 6000 && db < 6000);
    let ra = f.start_recovery(&a.hash).expect("request for a");
    assert_eq!(ra.receipt, vec![0xA]);
    assert_eq!(ra.session_index, 3);
    let rb = f.start_recovery(&b.hash).expect("request for b");
    assert_eq!(rb.receipt, vec![0xB]);
}

#[test]
fn import_before_the_delay_cancels_recovery() {
    let mut f = ParachainFollower::new(6000);
    let a = header(5, 1);
    assert!(f.handle_pending_candidate(&a, vec![1], 0, Some(BlockStatus::Unknown)).is_some());
    let n = ImportNotification { hash: a.hash, header: a.clone(), origin: BlockOrigin::NetworkBroadcast, is_new_best: false };
    f.handle_new_block_imported(&n);
    assert!(f.start_recovery(&a.hash).is_none());
}

#[test]
fn known_candidate_is_not_recovered() {
    let mut f = ParachainFollower::new(6000);
    let a = header(5, 1);
    assert!(f.handle_pending_candidate(&a, vec![1], 0, Some(BlockStatus::InChainWithState)).is_none());
    assert!(f.handle_pending_candidate(&a, vec![1], 0, None).is_none());
    assert!(f.start_recovery(&a.hash).is_none());
}

#[test]
fn finalization_evicts_candidates_at_or_below() {
    let mut r = CandidateRecovery::new(6000);
    assert_eq!(r.insert_pending_candidate_with_delay(hash(1), 10, vec![], 0, 5), Some(5));
    assert_eq!(r.insert_pending_candidate_with_delay(hash(2), 12, vec![], 0, 5), Some(5));
    assert_eq!(r.insert_pending_candidate_with_delay(hash(3), 15, vec![], 0, 5), Some(5));
    r.block_finalized(12);
    assert!(!r.is_pending(&hash(1)));
    assert!(!r.is_pending(&hash(2)));
    assert!(r.is_pending(&hash(3)));
}

#[test]
fn repeated_announcement_keeps_one_wait() {
    let mut r = CandidateRecovery::new(6000);
    assert_eq!(r.insert_pending_candidate_with_delay(hash(1), 10, vec![1], 0, 7), Some(7));
    assert_eq!(r.insert_pending_candidate_with_delay(hash(1), 10, vec![2], 1, 9), None);
    let req = r.start_recovery(&hash(1)).expect("request");
    assert_eq!(req.receipt, vec![2]);
    assert_eq!(req.session_index, 1);
    assert!(r.start_recovery(&hash(1)).is_none());
}

#[test]
fn candidate_under_recovery_is_not_announced_again() {
    let mut r = CandidateRecovery::new(6000);
    r.insert_pending_candidate_with_delay(hash(1), 10, vec![1], 0, 7);
    r.start_recovery(&hash(1)).expect("request");
    assert!(r.is_recovering(&hash(1)));
    assert_eq!(r.insert_pending_candidate_with_delay(hash(1), 10, vec![1], 0, 7), None);
    assert!(!r.is_pending(&hash(1)));
    r.recovery_finished(&hash(1));
    assert!(!r.is_recovering(&hash(1)));
    assert_eq!(r.insert_pending_candidate_with_delay(hash(1), 10, vec![1], 0, 7), Some(7));
}

#[test]
fn zero_slot_gives_zero_delay() {
    let mut r = CandidateRecovery::new(0);
    assert_eq!(r.insert_pending_candidate(hash(1), 1, vec![], 0), Some(0));
}

#[test]
fn delays_spread_over_the_slot() {
    let mut r = CandidateRecovery::new(1000);
    let mut buckets = [0u32; 10];
    let mut sum: u64 = 0;
    let n: u32 = 4000;
    for i in 0..n {
        let mut bytes = [0u8; 32];
        bytes[..4].copy_from_slice(&i.to_le_bytes());
        let d = r.insert_pending_candidate(BlockHash::from_bytes(bytes), 1, vec![], 0).expect("new");
        assert!(d < 1000);
        buckets[(d / 100) as usize] += 1;
        sum += d;
    }
    let mean = sum as f64 / n as f64;
    assert!(mean > 450.0 && mean < 550.0, "mean {}", mean);
    for b in buckets.iter() {
        assert!(*b > 300 && *b < 500, "bucket {}", b);
    }
}
