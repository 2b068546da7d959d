use payload_columns::containers::PayloadColumn;
use payload_columns::eth_spec::MinimalEthSpec;
use payload_columns::payload_column_assembler::{InsertOutcome, PayloadColumnAssembler};
use payload_columns::payload_column_sidecar::PayloadColumnSidecar;
use payload_columns::primitives::{ColumnIndex, Epoch, Hash256, Slot, ZERO_ROOT};
use std::sync::Arc;

type E = MinimalEthSpec;

fn assembler() -> PayloadColumnAssembler<E> {
    PayloadColumnAssembler::new(4)
}

fn sidecar(index: ColumnIndex, slot: Slot) -> Arc<PayloadColumnSidecar> {
    Arc::new(PayloadColumnSidecar {
        index,
        column: PayloadColumn::empty(),
        column_inclusion_proof: [ZERO_ROOT; 7],
        slot,
        beacon_block_root: [1; 32],
    })
}

fn init(assembler: &mut PayloadColumnAssembler<E>, root: Hash256, slot: Slot) -> Hash256 {
    assembler
        .payload_columns_root_or_init(root, slot, || Ok::<_, ()>([0xab; 32]))
        .expect("load succeeds")
}

#[test]
fn root_is_loaded_once_per_block() {
    let mut assembler = assembler();
    let root = [1; 32];

    let first = init(&mut assembler, root, Slot::new(1));
    assert_eq!(first, [0xab; 32]);

    // A second call must not invoke `load` again.
    let second = assembler
        .payload_columns_root_or_init(root, Slot::new(1), || -> Result<Hash256, ()> {
            panic!("load should not be called for a cached block")
        })
        .expect("cached");
    assert_eq!(second, first);
}

#[test]
fn racing_init_does_not_discard_stored_columns() {
    // Columns for the same block arrive concurrently, so two callers can both miss the cache and
    // both load. The one that finishes second must not reset the entry.
    let mut assembler = assembler();
    let root = [1; 32];
    let slot = Slot::new(1);

    // We miss the cache and start loading.
    assert_eq!(assembler.cached_payload_columns_root(root), None);

    // The racing caller wins while we are still loading.
    init(&mut assembler, root, slot);
    assembler.insert(root, sidecar(0, slot));

    let root_from_race = assembler.init_payload_columns_root(root, slot, [0xab; 32]);

    assert_eq!(root_from_race, [0xab; 32]);
    assert_eq!(
        assembler.held_indices(root),
        vec![0],
        "the column stored by the winning caller must survive"
    );
}

#[test]
fn duplicate_columns_are_rejected() {
    let mut assembler = assembler();
    let root = [1; 32];
    init(&mut assembler, root, Slot::new(1));

    assert_eq!(
        assembler.insert(root, sidecar(0, Slot::new(1))),
        InsertOutcome::Stored { columns_held: 1 }
    );
    assert_eq!(
        assembler.insert(root, sidecar(0, Slot::new(1))),
        InsertOutcome::AlreadyKnown
    );
    assert_eq!(
        assembler.insert(root, sidecar(1, Slot::new(1))),
        InsertOutcome::Stored { columns_held: 2 }
    );
}

#[test]
fn recovery_unlocks_at_half_the_columns() {
    let mut assembler = assembler();
    let root = [1; 32];
    let slot = Slot::new(1);
    init(&mut assembler, root, slot);

    let required = PayloadColumnAssembler::<E>::columns_required_for_recovery();
    for index in 0..required.saturating_sub(1) {
        assembler.insert(root, sidecar(index as u64, slot));
        assert!(
            assembler.take_columns_for_recovery(root).is_none(),
            "should not recover with {} columns",
            index + 1
        );
    }

    assembler.insert(root, sidecar(required as u64 - 1, slot));
    let columns = assembler
        .take_columns_for_recovery(root)
        .expect("should recover once the threshold is reached");
    assert_eq!(columns.len(), required);
    // Ordering must be deterministic for recovery.
    assert!(columns.windows(2).all(|w| w[0].index < w[1].index));
}

#[test]
fn recovery_happens_only_once() {
    let mut assembler = assembler();
    let root = [1; 32];
    let slot = Slot::new(1);
    init(&mut assembler, root, slot);

    let required = PayloadColumnAssembler::<E>::columns_required_for_recovery();
    for index in 0..required {
        assembler.insert(root, sidecar(index as u64, slot));
    }

    assert!(assembler.take_columns_for_recovery(root).is_some());
    assert!(
        assembler.take_columns_for_recovery(root).is_none(),
        "a second reconstruction must not be triggered"
    );
    assert_eq!(
        assembler.insert(root, sidecar(required as u64, slot)),
        InsertOutcome::AlreadyReconstructed,
        "late columns are redundant once the payload is recovered"
    );
}

#[test]
fn failed_recovery_can_be_retried() {
    let mut assembler = assembler();
    let root = [1; 32];
    let slot = Slot::new(1);
    init(&mut assembler, root, slot);

    let required = PayloadColumnAssembler::<E>::columns_required_for_recovery();
    for index in 0..required {
        assembler.insert(root, sidecar(index as u64, slot));
    }
    assert!(assembler.take_columns_for_recovery(root).is_some());

    assembler.clear_reconstructed(root);
    assert!(
        assembler.take_columns_for_recovery(root).is_some(),
        "clearing the mark should allow another attempt"
    );
}

#[test]
fn maintenance_drops_old_assemblies() {
    let mut assembler = assembler();
    let old = [1; 32];
    let recent = [2; 32];

    init(&mut assembler, old, Slot::new(0));
    init(&mut assembler, recent, Slot::new(100));
    assembler.insert(old, sidecar(0, Slot::new(0)));
    assembler.insert(recent, sidecar(0, Slot::new(100)));
    assert_eq!(assembler.held_indices(old), vec![0]);

    assembler.do_maintenance(Epoch::new(1));

    assert!(
        assembler.held_indices(old).is_empty(),
        "the epoch-0 assembly should have been dropped"
    );
    assert_eq!(
        assembler.held_indices(recent),
        vec![0],
        "the recent assembly should survive"
    );
}

#[test]
fn half_of_the_columns_is_64() {
    assert_eq!(PayloadColumnAssembler::<E>::columns_required_for_recovery(), 64);
}

#[test]
fn a_failed_load_enters_no_block() {
    let mut assembler = assembler();
    assert_eq!(
        assembler.payload_columns_root_or_init([1; 32], Slot::new(1), || Err("store")),
        Err("store")
    );
    assert_eq!(assembler.cached_payload_columns_root([1; 32]), None);
}

#[test]
fn the_first_root_stays() {
    let mut assembler = assembler();
    assert_eq!(assembler.init_payload_columns_root([1; 32], Slot::new(1), [2; 32]), [2; 32]);
    assert_eq!(assembler.init_payload_columns_root([1; 32], Slot::new(1), [3; 32]), [2; 32]);
    assert_eq!(assembler.cached_payload_columns_root([1; 32]), Some([2; 32]));
}

#[test]
fn the_least_recently_used_block_is_pushed_out() {
    let mut assembler = PayloadColumnAssembler::<E>::new(2);
    init(&mut assembler, [1; 32], Slot::new(1));
    init(&mut assembler, [2; 32], Slot::new(1));
    // Using the first block makes the second the least recently used.
    assert_eq!(assembler.cached_payload_columns_root([1; 32]), Some([0xab; 32]));
    init(&mut assembler, [3; 32], Slot::new(1));
    assert_eq!(assembler.cached_payload_columns_root([2; 32]), None);
    assert_eq!(assembler.cached_payload_columns_root([1; 32]), Some([0xab; 32]));
    assert_eq!(assembler.cached_payload_columns_root([3; 32]), Some([0xab; 32]));
}

#[test]
fn inserting_uses_a_block() {
    let mut assembler = PayloadColumnAssembler::<E>::new(2);
    init(&mut assembler, [1; 32], Slot::new(1));
    init(&mut assembler, [2; 32], Slot::new(1));
    assembler.insert([1; 32], sidecar(0, Slot::new(1)));
    init(&mut assembler, [3; 32], Slot::new(1));
    assert_eq!(assembler.cached_payload_columns_root([2; 32]), None);
    assert_eq!(assembler.held_indices([1; 32]), vec![0]);
}

#[test]
fn nothing_is_held_without_capacity() {
    let mut assembler = PayloadColumnAssembler::<E>::new(0);
    assert_eq!(init(&mut assembler, [1; 32], Slot::new(1)), [0xab; 32]);
    assert_eq!(assembler.cached_payload_columns_root([1; 32]), None);
}

#[test]
fn a_column_of_an_unknown_block_is_dropped() {
    let mut assembler = assembler();
    assert_eq!(
        assembler.insert([1; 32], sidecar(0, Slot::new(1))),
        InsertOutcome::AlreadyKnown
    );
    assert!(assembler.held_indices([1; 32]).is_empty());
    assert!(assembler.take_columns_for_recovery([1; 32]).is_none());
    assembler.clear_reconstructed([1; 32]);
    assert!(assembler.held_indices([1; 32]).is_empty());
}

#[test]
fn columns_are_taken_in_ascending_order_whatever_order_they_came_in() {
    let mut assembler = assembler();
    let root = [1; 32];
    let slot = Slot::new(1);
    init(&mut assembler, root, slot);
    for index in (0..64u64).rev() {
        assembler.insert(root, sidecar((index * 37) % 128, slot));
    }
    let mut held = assembler.held_indices(root);
    held.sort_unstable();
    let taken = assembler.take_columns_for_recovery(root).expect("should recover");
    let indices = taken.iter().map(|s| s.index).collect::<Vec<_>>();
    assert_eq!(indices, held);
    assert_eq!(indices.len(), 64);
}

#[test]
fn blocks_do_not_share_columns() {
    let mut assembler = assembler();
    let slot = Slot::new(1);
    init(&mut assembler, [1; 32], slot);
    init(&mut assembler, [2; 32], slot);
    assembler.insert([1; 32], sidecar(5, slot));
    assert_eq!(assembler.held_indices([1; 32]), vec![5]);
    assert!(assembler.held_indices([2; 32]).is_empty());
}

#[test]
fn maintenance_keeps_the_cutoff_epoch() {
    // An epoch has 8 slots here.
    let mut assembler = assembler();
    init(&mut assembler, [1; 32], Slot::new(15));
    init(&mut assembler, [2; 32], Slot::new(16));
    assembler.do_maintenance(Epoch::new(2));
    assert_eq!(assembler.cached_payload_columns_root([1; 32]), None);
    assert_eq!(assembler.cached_payload_columns_root([2; 32]), Some([0xab; 32]));
}
