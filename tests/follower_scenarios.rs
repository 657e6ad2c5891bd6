use parachain_consensus::finalized::{follow_finalized_head, FinalizeError, FinalizeStep};
use parachain_consensus::follower::{
    BlockOrigin, BlockStatus, FinalizeReport, ForkChoiceStrategy, ImportNotification,
    NewBestOutcome, ParachainFollower,
};
use parachain_consensus::hash::BlockHash;
use parachain_consensus::header::{decode_header, Header};

fn header(number: u8, tag: u8) -> Header {
    let mut v = vec![tag; 32];
    v.push(number << 2);
    v.extend_from_slice(&[1u8; 32]);
    v.extend_from_slice(&[2u8; 32]);
    v.push(0);
    decode_header(&v).expect("decodes")
}

fn other_hash() -> BlockHash {
    BlockHash::from_bytes([0xEE; 32])
}

fn notification(h: &Header, origin: BlockOrigin, is_new_best: bool) -> ImportNotification {
    ImportNotification { hash: h.hash, header: h.clone(), origin, is_new_best }
}

#[test]
fn known_best_head_is_imported_as_best() {
    let mut f = ParachainFollower::new(6000);
    let h = header(5, 1);
    match f.handle_new_best_parachain_head(h.clone(), &other_hash(), Some(BlockStatus::InChainWithState)) {
        NewBestOutcome::Import(p) => {
            assert_eq!(p.header.hash, h.hash);
            assert_eq!(p.fork_choice, Some(ForkChoiceStrategy::Custom(true)));
            assert!(p.import_existing);
            assert_eq!(p.origin, BlockOrigin::ConsensusBroadcast);
        }
        other => panic!("unexpected {:?}", other),
    }
    assert_eq!(f.unset_best_hash(), None);
}

#[test]
fn head_that_is_already_best_is_skipped() {
    let mut f = ParachainFollower::new(6000);
    let h = header(5, 1);
    let r = f.handle_new_best_parachain_head(h.clone(), &h.hash, Some(BlockStatus::InChainWithState));
    assert!(matches!(r, NewBestOutcome::AlreadyBest));
}

#[test]
fn unknown_best_head_waits_for_its_import() {
    let mut f = ParachainFollower::new(6000);
    let h = header(5, 1);
    let r = f.handle_new_best_parachain_head(h.clone(), &other_hash(), Some(BlockStatus::Unknown));
    assert!(matches!(r, NewBestOutcome::Deferred));
    assert_eq!(f.unset_best_hash(), Some(h.hash));
    assert_eq!(f.unset_best_number(), Some(5));

    let step = f.handle_new_block_imported(&notification(&h, BlockOrigin::NetworkBroadcast, false));
    assert_eq!(step.announce, Some(h.hash));
    assert_eq!(step.recheck, Some(h.hash));
    let p = f.promote_unset_best(Some(BlockStatus::InChainWithState)).expect("promoted");
    assert_eq!(p.header.hash, h.hash);
    assert_eq!(p.fork_choice, Some(ForkChoiceStrategy::Custom(true)));
    assert_eq!(f.unset_best_hash(), None);
}

#[test]
fn deferred_head_stays_while_not_available() {
    let mut f = ParachainFollower::new(6000);
    let h = header(5, 1);
    f.handle_new_best_parachain_head(h.clone(), &other_hash(), Some(BlockStatus::Unknown));
    assert!(f.promote_unset_best(Some(BlockStatus::Queued)).is_none());
    assert_eq!(f.unset_best_hash(), Some(h.hash));
}

#[test]
fn import_reconciles_by_height() {
    let mut f = ParachainFollower::new(6000);
    let u = header(5, 1);
    f.handle_new_best_parachain_head(u.clone(), &other_hash(), Some(BlockStatus::Unknown));
    // Lower block: keep waiting.
    let low = header(4, 2);
    assert_eq!(f.handle_new_block_imported(&notification(&low, BlockOrigin::NetworkBroadcast, false)).recheck, None);
    // Same height, other fork: keep waiting.
    let fork = header(5, 3);
    assert_eq!(f.handle_new_block_imported(&notification(&fork, BlockOrigin::NetworkBroadcast, false)).recheck, None);
    // Higher block: look the deferred one up again.
    let high = header(6, 4);
    assert_eq!(f.handle_new_block_imported(&notification(&high, BlockOrigin::NetworkBroadcast, false)).recheck, Some(u.hash));
    // An import that is already the new best needs nothing.
    assert_eq!(f.handle_new_block_imported(&notification(&u, BlockOrigin::NetworkBroadcast, true)).recheck, None);
    assert_eq!(f.unset_best_hash(), Some(u.hash));
}

#[test]
fn later_unknown_best_replaces_earlier() {
    let mut f = ParachainFollower::new(6000);
    let a = header(5, 1);
    let b = header(6, 2);
    f.handle_new_best_parachain_head(a, &other_hash(), Some(BlockStatus::Unknown));
    f.handle_new_best_parachain_head(b.clone(), &other_hash(), Some(BlockStatus::Unknown));
    assert_eq!(f.unset_best_hash(), Some(b.hash));
}

#[test]
fn pruned_best_head_is_not_acted_on() {
    let mut f = ParachainFollower::new(6000);
    let a = header(5, 1);
    f.handle_new_best_parachain_head(a.clone(), &other_hash(), Some(BlockStatus::Unknown));
    let p = header(7, 9);
    let r = f.handle_new_best_parachain_head(p, &other_hash(), Some(BlockStatus::InChainPruned));
    assert!(matches!(r, NewBestOutcome::Pruned));
    assert_eq!(f.unset_best_hash(), Some(a.hash));
    let r = f.handle_new_best_parachain_head(header(8, 9), &other_hash(), None);
    assert!(matches!(r, NewBestOutcome::StatusUnavailable));
    let r = f.handle_new_best_parachain_head(header(8, 9), &other_hash(), Some(BlockStatus::KnownBad));
    assert!(matches!(r, NewBestOutcome::Ignored));
    assert_eq!(f.unset_best_hash(), Some(a.hash));
}

#[test]
fn own_blocks_are_not_announced() {
    let mut f = ParachainFollower::new(6000);
    let h = header(5, 1);
    assert_eq!(f.handle_new_block_imported(&notification(&h, BlockOrigin::Own, false)).announce, None);
    assert_eq!(f.handle_new_block_imported(&notification(&h, BlockOrigin::ConsensusBroadcast, true)).announce, Some(h.hash));
}

#[test]
fn finalization_race_then_ancestor() {
    let f_head = header(9, 1);
    let finalized = header(3, 7).hash;
    match follow_finalized_head(&f_head.encoded, &finalized) {
        FinalizeStep::Finalize(h) => assert_eq!(h.hash, f_head.hash),
        other => panic!("unexpected {:?}", other),
    }
    let mut f = ParachainFollower::new(6000);
    assert_eq!(f.handle_finalize_result(9, Err(FinalizeError::UnknownBlock)), FinalizeReport::NotYetImported);
    let ancestor = header(8, 2);
    assert!(matches!(follow_finalized_head(&ancestor.encoded, &finalized), FinalizeStep::Finalize(_)));
    assert_eq!(f.handle_finalize_result(8, Ok(())), FinalizeReport::Finalized);
    assert_eq!(f.handle_finalize_result(8, Err(FinalizeError::Other)), FinalizeReport::Failed);
}

#[test]
fn finalized_block_is_not_finalized_again() {
    let h = header(9, 1);
    assert!(matches!(follow_finalized_head(&h.encoded, &h.hash), FinalizeStep::AlreadyFinalized));
    assert!(matches!(follow_finalized_head(&[1, 2, 3], &h.hash), FinalizeStep::Undecodable));
}
