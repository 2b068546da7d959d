//! Collects payload column sidecars until enough have arrived to recover the execution payload.
//!
//! Each entry is keyed by beacon block root and caches the `payload_columns_root` taken from that
//! block's bid, so that verifying the last column for a block costs no more than verifying the
//! first.

use crate::assembly_cache::{
    bounded, cache_get, cache_get_mut, cache_insert, cache_remove, cache_slots, cached,
    capacity_of, entry_under, keys_of, new_cache, refreshed, without, Assembly, AssemblyCache,
    AssemblyView,
};
use crate::eth_spec::{EthSpec, CELLS_PER_EXT_BLOB};
use crate::payload_column_sidecar::{sidecars_of, PayloadColumnSidecar, SidecarView};
use crate::payload_column_utils::{indices_of, selected_from};
use crate::primitives::{ColumnIndex, Epoch, Hash256, Slot};
use std::collections::HashMap;
use std::marker::PhantomData;
use std::sync::Arc;
use vstd::prelude::*;
use vstd::seq_lib::lemma_seq_contains_after_push;

verus! {

broadcast use vstd::std_specs::hash::group_hash_axioms;

/// What happened when a column was offered to the assembler.
#[derive(Debug, Clone, Copy, PartialEq, Eq, Structural)]
pub enum InsertOutcome {
    /// The column is new and was stored.
    Stored {
        /// How many distinct columns are now held for this block.
        columns_held: usize,
    },
    /// A column with this index was already held for this block.
    AlreadyKnown,
    /// The payload for this block has already been recovered, so the column is redundant.
    AlreadyReconstructed,
}

/// How many columns recover a payload: half of them, given the doubling erasure code.
pub open spec fn required_for_recovery() -> nat {
    (CELLS_PER_EXT_BLOB / 2) as nat
}

/// What an assembler holds: the assembly of each block, least recently used first.
#[verifier::ext_equal]
pub struct AssemblerView {
    pub capacity: nat,
    pub entries: Seq<(Hash256, AssemblyView)>,
}

impl AssemblerView {
    /// Each block has one assembly, no more are held than fit, and each column is held under its
    /// own index.
    pub open spec fn wf(self) -> bool {
        &&& keys_of(self.entries).no_duplicates()
        &&& self.entries.len() <= self.capacity
        &&& forall|i: int| 0 <= i < self.entries.len() ==> columns_wf(#[trigger] self.entries[i].1)
    }

    /// The assembly of a block.
    pub open spec fn lookup(self, block_root: Hash256) -> Option<AssemblyView> {
        entry_under(self.entries, block_root)
    }

    /// With the given assembly for a block, as the most recently used.
    pub open spec fn with(self, block_root: Hash256, assembly: AssemblyView) -> AssemblerView {
        AssemblerView { entries: refreshed(self.entries, block_root, assembly), ..self }
    }

    /// With a block's assembly, if there is one, as the most recently used.
    pub open spec fn touched(self, block_root: Hash256) -> AssemblerView {
        match self.lookup(block_root) {
            Some(assembly) => self.with(block_root, assembly),
            None => self,
        }
    }

    /// The root of a block's columns once `loaded` has been offered for it: the first one stays.
    pub open spec fn root_after_init(self, block_root: Hash256, loaded: Hash256) -> Hash256 {
        match self.lookup(block_root) {
            Some(assembly) => assembly.payload_columns_root,
            None => loaded,
        }
    }

    /// What is held once `loaded` has been offered for a block: the first assembly stays, a new one
    /// has no columns and may push out the least recently used.
    pub open spec fn after_init(
        self,
        block_root: Hash256,
        slot: Slot,
        loaded: Hash256,
    ) -> AssemblerView {
        match self.lookup(block_root) {
            Some(assembly) => self.with(block_root, assembly),
            None => AssemblerView {
                entries: bounded(
                    refreshed(self.entries, block_root, empty_assembly(slot, loaded)),
                    self.capacity,
                ),
                ..self
            },
        }
    }

    /// What a column offered for a block comes to.
    pub open spec fn insert_outcome(
        self,
        block_root: Hash256,
        sidecar: SidecarView,
    ) -> InsertOutcome {
        match self.lookup(block_root) {
            None => InsertOutcome::AlreadyKnown,
            Some(assembly) => if assembly.reconstructed {
                InsertOutcome::AlreadyReconstructed
            } else if assembly.columns.contains_key(sidecar.index) {
                InsertOutcome::AlreadyKnown
            } else {
                InsertOutcome::Stored { columns_held: (assembly.columns.len() + 1) as usize }
            },
        }
    }

    /// What is held once a column has been offered for a block.
    pub open spec fn after_insert(
        self,
        block_root: Hash256,
        sidecar: SidecarView,
    ) -> AssemblerView {
        match self.insert_outcome(block_root, sidecar) {
            InsertOutcome::Stored { columns_held: _ } => {
                let assembly = self.lookup(block_root)->0;
                self.with(
                    block_root,
                    AssemblyView {
                        columns: assembly.columns.insert(sidecar.index, sidecar),
                        ..assembly
                    },
                )
            },
            _ => self.touched(block_root),
        }
    }

    /// Whether a block's columns are ready for recovery, and recovery has not started.
    pub open spec fn recovers(self, block_root: Hash256) -> bool {
        match self.lookup(block_root) {
            Some(assembly) => !assembly.reconstructed && assembly.columns.len()
                >= required_for_recovery(),
            None => false,
        }
    }

    /// With the given mark on a block's assembly, if there is one.
    pub open spec fn marked(self, block_root: Hash256, reconstructed: bool) -> AssemblerView {
        match self.lookup(block_root) {
            Some(assembly) => self.with(block_root, AssemblyView { reconstructed, ..assembly }),
            None => self,
        }
    }

    /// What is held once a block's columns have been asked for.
    pub open spec fn after_take(self, block_root: Hash256) -> AssemblerView {
        if self.recovers(block_root) {
            self.marked(block_root, true)
        } else {
            self.touched(block_root)
        }
    }

    /// What is held once the assemblies of blocks before an epoch have been dropped.
    pub open spec fn after_maintenance(self, cutoff: Epoch, slots_per_epoch: u64) -> AssemblerView {
        AssemblerView { entries: retained(self.entries, cutoff, slots_per_epoch), ..self }
    }
}

/// Whether each column is held under its own index.
pub open spec fn columns_wf(assembly: AssemblyView) -> bool {
    &&& assembly.columns.dom().finite()
    &&& forall|index: ColumnIndex| #[trigger]
        assembly.columns.contains_key(index) ==> assembly.columns[index].index == index
}

/// The assembly of a block without columns.
pub open spec fn empty_assembly(slot: Slot, payload_columns_root: Hash256) -> AssemblyView {
    AssemblyView { payload_columns_root, slot, columns: Map::empty(), reconstructed: false }
}

/// Whether a block is not before an epoch.
pub open spec fn is_recent(assembly: AssemblyView, cutoff: Epoch, slots_per_epoch: u64) -> bool {
    assembly.slot.spec_epoch(slots_per_epoch).0 >= cutoff.0
}

/// The entries of blocks that are not before an epoch, in order.
pub open spec fn retained(
    entries: Seq<(Hash256, AssemblyView)>,
    cutoff: Epoch,
    slots_per_epoch: u64,
) -> Seq<(Hash256, AssemblyView)>
    decreases entries.len(),
{
    if entries.len() == 0 {
        Seq::empty()
    } else {
        let earlier = retained(entries.drop_last(), cutoff, slots_per_epoch);
        if is_recent(entries.last().1, cutoff, slots_per_epoch) {
            earlier.push(entries.last())
        } else {
            earlier
        }
    }
}

/// Whether `listed` are the given columns, in ascending order of their indices.
pub open spec fn lists(listed: Seq<SidecarView>, columns: Map<ColumnIndex, SidecarView>) -> bool {
    &&& listed.len() == columns.len()
    &&& forall|k: int|
        0 <= k < listed.len() ==> columns.contains_key((#[trigger] listed[k]).index)
            && columns[listed[k].index] == listed[k]
    &&& forall|k: int, l: int|
        0 <= k < l < listed.len() ==> (#[trigger] listed[k]).index < (#[trigger] listed[l]).index
    &&& forall|index: ColumnIndex| #[trigger]
        columns.contains_key(index) ==> exists|k: int|
            0 <= k < listed.len() && (#[trigger] listed[k]).index == index
}

/// Collects columns block by block.
#[verifier::reject_recursive_types(E)]
pub struct PayloadColumnAssembler<E: EthSpec> {
    assemblies: AssemblyCache,
    preset: PhantomData<E>,
}

impl<E: EthSpec> View for PayloadColumnAssembler<E> {
    type V = AssemblerView;

    closed spec fn view(&self) -> AssemblerView {
        AssemblerView { capacity: capacity_of(self.assemblies), entries: cached(self.assemblies) }
    }
}

impl<E: EthSpec> PayloadColumnAssembler<E> {
    /// An assembler for up to `capacity` blocks.
    pub fn new(capacity: usize) -> (result: Self)
        ensures
            result@ == (AssemblerView { capacity: capacity as nat, entries: Seq::empty() }),
            result@.wf(),
    {
        let result = PayloadColumnAssembler {
            assemblies: new_cache(capacity),
            preset: PhantomData,
        };
        assert(result@.entries =~= Seq::empty());
        result
    }

    /// The number of columns needed to recover the payload.
    pub fn columns_required_for_recovery() -> (result: usize)
        ensures
            result == required_for_recovery(),
            result == 64,
    {
        proof {
            E::shared_geometry();
        }
        let columns: usize = E::number_of_columns();
        columns / 2 + columns % 2
    }

    /// The cached `payload_columns_root` for `block_root`.
    pub fn cached_payload_columns_root(&mut self, block_root: Hash256) -> (result: Option<Hash256>)
        requires
            old(self)@.wf(),
        ensures
            final(self)@ == old(self)@.touched(block_root),
            final(self)@.wf(),
            result == match old(self)@.lookup(block_root) {
                Some(assembly) => Some(assembly.payload_columns_root),
                None => None,
            },
            final(self)@.capacity == old(self)@.capacity,
            forall|root: Hash256| #[trigger]
                final(self)@.lookup(root) == old(self)@.lookup(root),
    {
        proof {
            lemma_touch_keeps_wf(self@, block_root);
            lemma_use_changes_nothing(self@, block_root);
        }
        match cache_get(&mut self.assemblies, &block_root) {
            Some(assembly) => Some(assembly.payload_columns_root),
            None => None,
        }
    }

    /// Enters a block with the `payload_columns_root` loaded for it, unless the block is there
    /// already; returns the root that stands.
    ///
    /// Several columns for the same block can be looked up and loaded before one of them gets here.
    /// The entry that got there first is kept: overwriting it would discard columns already stored
    /// and reset the mark of a recovered payload.
    pub fn init_payload_columns_root(
        &mut self,
        block_root: Hash256,
        slot: Slot,
        loaded: Hash256,
    ) -> (result: Hash256)
        requires
            old(self)@.wf(),
        ensures
            final(self)@ == old(self)@.after_init(block_root, slot, loaded),
            final(self)@.wf(),
            result == old(self)@.root_after_init(block_root, loaded),
            final(self)@.capacity == old(self)@.capacity,
            // The first entry of a block stays, and its root is the one that stands.
            old(self)@.lookup(block_root) is Some ==> {
                &&& result == old(self)@.lookup(block_root)->0.payload_columns_root
                &&& forall|root: Hash256| #[trigger]
                    final(self)@.lookup(root) == old(self)@.lookup(root)
            },
            // A new one has the root that was loaded, and no columns.
            old(self)@.lookup(block_root) is None ==> result == loaded,
            old(self)@.lookup(block_root) is None && old(self)@.capacity > 0 ==> {
                &&& final(self)@.lookup(block_root) matches Some(assembly)
                &&& assembly.payload_columns_root == loaded
                &&& assembly.slot == slot
                &&& assembly.columns == Map::<ColumnIndex, SidecarView>::empty()
                &&& !assembly.reconstructed
            },
            // Where there is room for it, every other block stays as it is.
            old(self)@.lookup(block_root) is None && old(self)@.entries.len() < old(
                self,
            )@.capacity ==> forall|root: Hash256|
                root != block_root ==> #[trigger] final(self)@.lookup(root) == old(self)@.lookup(
                    root,
                ),
    {
        proof {
            lemma_init_keeps_wf(self@, block_root, slot, loaded);
            lemma_use_changes_nothing(self@, block_root);
            if self@.lookup(block_root) is None {
                law_new_block_is_entered(self@, block_root, slot, loaded);
                assert forall|root: Hash256|
                    root != block_root && self@.entries.len() < self@.capacity implies
                    #[trigger] self@.after_init(block_root, slot, loaded).lookup(root)
                    == self@.lookup(root) by {
                    law_init_pushes_out_the_least_recently_used(
                        self@,
                        block_root,
                        slot,
                        loaded,
                        root,
                    );
                }
            }
        }
        match cache_get(&mut self.assemblies, &block_root) {
            Some(assembly) => return assembly.payload_columns_root,
            None => {},
        }
        let assembly = Assembly {
            payload_columns_root: loaded,
            slot,
            columns: HashMap::new(),
            reconstructed: false,
        };
        assert(assembly@ =~= empty_assembly(slot, loaded));
        cache_insert(&mut self.assemblies, block_root, assembly);
        loaded
    }

    /// Returns the cached `payload_columns_root` for `block_root`, entering the block with what
    /// `load` returns on the first column seen for it.
    ///
    /// `load` is called for a block that is not there yet, and only then.
    pub fn payload_columns_root_or_init<L, F: FnOnce() -> Result<Hash256, L>>(
        &mut self,
        block_root: Hash256,
        slot: Slot,
        load: F,
    ) -> (result: Result<Hash256, L>)
        requires
            old(self)@.wf(),
            old(self)@.lookup(block_root) is None ==> call_requires(load, ()),
        ensures
            final(self)@.wf(),
            match old(self)@.lookup(block_root) {
                Some(assembly) => result == Ok::<Hash256, L>(assembly.payload_columns_root)
                    && final(self)@ == old(self)@.touched(block_root),
                None => call_ensures(load, (), result) && final(self)@ == match result {
                    Ok(loaded) => old(self)@.after_init(block_root, slot, loaded),
                    Err(_) => old(self)@,
                },
            },
            final(self)@.capacity == old(self)@.capacity,
            old(self)@.lookup(block_root) is Some || result is Err ==> forall|root: Hash256|
                #[trigger] final(self)@.lookup(root) == old(self)@.lookup(root),
            old(self)@.lookup(block_root) is None && result is Ok && old(self)@.capacity > 0 ==> {
                &&& final(self)@.lookup(block_root) matches Some(assembly)
                &&& assembly.payload_columns_root == result->Ok_0
                &&& assembly.slot == slot
                &&& assembly.columns == Map::<ColumnIndex, SidecarView>::empty()
                &&& !assembly.reconstructed
            },
    {
        match self.cached_payload_columns_root(block_root) {
            Some(root) => return Ok(root),
            None => {},
        }
        match load() {
            Ok(loaded) => Ok(self.init_payload_columns_root(block_root, slot, loaded)),
            Err(e) => Err(e),
        }
    }
}

impl<E: EthSpec> PayloadColumnAssembler<E> {
    /// Stores a verified column, reporting whether it was new.
    ///
    /// The caller has verified the column's inclusion proof against the `payload_columns_root` for
    /// `block_root`. A block that is not there has been pushed out since; dropping the column is
    /// safe, it is offered again with the next arrival for this block.
    pub fn insert(&mut self, block_root: Hash256, sidecar: Arc<PayloadColumnSidecar>) -> (result:
        InsertOutcome)
        requires
            old(self)@.wf(),
        ensures
            final(self)@ == old(self)@.after_insert(block_root, sidecar@),
            final(self)@.wf(),
            result == old(self)@.insert_outcome(block_root, sidecar@),
            final(self)@.capacity == old(self)@.capacity,
            forall|root: Hash256|
                root != block_root ==> #[trigger] final(self)@.lookup(root) == old(self)@.lookup(
                    root,
                ),
            match old(self)@.lookup(block_root) {
                // A new column of a block that is held and not recovered yet is stored.
                Some(assembly) => if !assembly.reconstructed && !assembly.columns.contains_key(
                    sidecar@.index,
                ) {
                    &&& result matches InsertOutcome::Stored { columns_held }
                    &&& columns_held == assembly.columns.len() + 1
                    &&& final(self)@.lookup(block_root) == Some(
                        AssemblyView {
                            columns: assembly.columns.insert(sidecar@.index, sidecar@),
                            ..assembly
                        },
                    )
                } else {
                    &&& result == (if assembly.reconstructed {
                        InsertOutcome::AlreadyReconstructed
                    } else {
                        InsertOutcome::AlreadyKnown
                    })
                    &&& final(self)@.lookup(block_root) == Some(assembly)
                },
                None => result == InsertOutcome::AlreadyKnown && final(self)@.lookup(
                    block_root,
                ) is None,
            },
    {
        let ghost before = self@;
        proof {
            lemma_touch_keeps_wf(before, block_root);
            lemma_insert_keeps_wf(before, block_root, sidecar@);
            law_insert_adds_the_column(before, block_root, sidecar@);
            assert forall|root: Hash256| root != block_root implies #[trigger] before.after_insert(
                block_root,
                sidecar@,
            ).lookup(root) == before.lookup(root) by {
                law_other_blocks_unchanged(before, block_root, sidecar@, root);
            }
            lemma_lookup_wf(before, block_root);
        }
        match cache_get_mut(&mut self.assemblies, &block_root) {
            None => InsertOutcome::AlreadyKnown,
            Some(assembly) => {
                proof {
                    lemma_view_of_columns(assembly.columns@);
                }
                if assembly.reconstructed {
                    return InsertOutcome::AlreadyReconstructed;
                }
                let index: u64 = sidecar.index;
                if assembly.columns.contains_key(&index) {
                    return InsertOutcome::AlreadyKnown;
                }
                let ghost held = assembly.columns@;
                assembly.columns.insert(index, sidecar);
                proof {
                    lemma_view_of_columns(held.insert(index, sidecar));
                    assert(assembly@.columns =~= views_of(held).insert(index, sidecar@));
                }
                InsertOutcome::Stored { columns_held: assembly.columns.len() }
            },
        }
    }

    /// If enough columns are held to recover the payload, marks the block as reconstructed and
    /// returns the columns, in ascending order of their indices.
    pub fn take_columns_for_recovery(&mut self, block_root: Hash256) -> (result: Option<
        Vec<PayloadColumnSidecar>,
    >)
        requires
            old(self)@.wf(),
        ensures
            final(self)@ == old(self)@.after_take(block_root),
            final(self)@.wf(),
            result is Some <==> old(self)@.recovers(block_root),
            result is Some ==> lists(
                sidecars_of(result->0@),
                old(self)@.lookup(block_root)->0.columns,
            ),
            // Half of the columns or more are handed out, until they were.
            result is Some <==> {
                &&& old(self)@.lookup(block_root) matches Some(assembly)
                &&& !assembly.reconstructed
                &&& assembly.columns.len() >= 64
            },
            // All columns that are held are handed out, in ascending order.
            result is Some ==> result->0@.len() == old(self)@.lookup(block_root)->0.columns.len(),
            result is Some ==> forall|k: int|
                0 <= k < result->0@.len() ==> old(self)@.lookup(
                    block_root,
                )->0.columns.contains_key((#[trigger] result->0@[k]).index) && result->0@[k]@
                    == old(self)@.lookup(block_root)->0.columns[result->0@[k].index],
            result is Some ==> forall|k: int, l: int|
                0 <= k < l < result->0@.len() ==> (#[trigger] result->0@[k]).index < (
                #[trigger] result->0@[l]).index,
            final(self)@.capacity == old(self)@.capacity,
            forall|root: Hash256|
                root != block_root ==> #[trigger] final(self)@.lookup(root) == old(self)@.lookup(
                    root,
                ),
            final(self)@.lookup(block_root) == match old(self)@.lookup(block_root) {
                Some(assembly) => Some(
                    AssemblyView {
                        reconstructed: assembly.reconstructed || result is Some,
                        ..assembly
                    },
                ),
                None => None,
            },
    {
        let ghost before = self@;
        proof {
            lemma_touch_keeps_wf(before, block_root);
            lemma_mark_keeps_wf(before, block_root, true);
            law_taking_sets_the_mark(before, block_root);
            law_recovery_starts_at_half(before, block_root);
            assert forall|root: Hash256| root != block_root implies #[trigger] before.after_take(
                block_root,
            ).lookup(root) == before.lookup(root) by {
                law_other_blocks_unchanged(before, block_root, arbitrary(), root);
            }
        }
        match cache_get_mut(&mut self.assemblies, &block_root) {
            None => None,
            Some(assembly) => {
                proof {
                    lemma_view_of_columns(assembly.columns@);
                    lemma_lookup_wf(before, block_root);
                }
                if assembly.reconstructed || assembly.columns.len()
                    < Self::columns_required_for_recovery() {
                    return None;
                }
                assembly.reconstructed = true;
                let taken = columns_in_order(&assembly.columns);
                proof {
                    lemma_listed(taken@, before.lookup(block_root)->0.columns);
                }
                Some(taken)
            },
        }
    }

    /// Undoes the "reconstructed" mark, so that a failed recovery attempt can be retried when more
    /// columns arrive.
    pub fn clear_reconstructed(&mut self, block_root: Hash256)
        requires
            old(self)@.wf(),
        ensures
            final(self)@ == old(self)@.marked(block_root, false),
            final(self)@.wf(),
            final(self)@.capacity == old(self)@.capacity,
            forall|root: Hash256|
                root != block_root ==> #[trigger] final(self)@.lookup(root) == old(self)@.lookup(
                    root,
                ),
            final(self)@.lookup(block_root) == match old(self)@.lookup(block_root) {
                Some(assembly) => Some(AssemblyView { reconstructed: false, ..assembly }),
                None => None,
            },
    {
        proof {
            lemma_mark_keeps_wf(self@, block_root, false);
            law_clearing_drops_the_mark(self@, block_root);
            assert forall|root: Hash256| root != block_root implies #[trigger] self@.marked(
                block_root,
                false,
            ).lookup(root) == self@.lookup(root) by {
                law_other_blocks_unchanged(self@, block_root, arbitrary(), root);
            }
        }
        match cache_get_mut(&mut self.assemblies, &block_root) {
            None => {},
            Some(assembly) => {
                assembly.reconstructed = false;
            },
        }
    }

    /// The indices currently held for a block, each once, in no particular order.
    pub fn held_indices(&mut self, block_root: Hash256) -> (result: Vec<ColumnIndex>)
        requires
            old(self)@.wf(),
        ensures
            final(self)@ == old(self)@.touched(block_root),
            final(self)@.wf(),
            result@.no_duplicates(),
            result@.to_set() == match old(self)@.lookup(block_root) {
                Some(assembly) => assembly.columns.dom(),
                None => Set::empty(),
            },
            final(self)@.capacity == old(self)@.capacity,
            forall|root: Hash256| #[trigger]
                final(self)@.lookup(root) == old(self)@.lookup(root),
    {
        proof {
            lemma_touch_keeps_wf(self@, block_root);
            lemma_use_changes_nothing(self@, block_root);
        }
        match cache_get(&mut self.assemblies, &block_root) {
            Some(assembly) => {
                proof {
                    lemma_view_of_columns(assembly.columns@);
                }
                keys_held(&assembly.columns)
            },
            None => {
                let none: Vec<ColumnIndex> = Vec::new();
                assert(none@.to_set() =~= Set::empty());
                none
            },
        }
    }
}

impl<E: EthSpec> PayloadColumnAssembler<E> {
    /// Drops the assemblies of blocks before `cutoff_epoch`.
    pub fn do_maintenance(&mut self, cutoff_epoch: Epoch)
        requires
            old(self)@.wf(),
        ensures
            final(self)@ == old(self)@.after_maintenance(cutoff_epoch, E::spec_slots_per_epoch()),
            final(self)@.wf(),
            final(self)@.capacity == old(self)@.capacity,
            // Exactly the blocks from the first slot of the epoch on stay, in their order.
            final(self)@.entries == old(self)@.entries.filter(
                |e: (Hash256, AssemblyView)|
                    e.1.slot.0 >= cutoff_epoch.0 * E::spec_slots_per_epoch(),
            ),
    {
        let ghost before = self@;
        let ghost entries = before.entries;
        proof {
            E::shared_geometry();
        }
        let slots_per_epoch: u64 = E::slots_per_epoch();
        let blocks = cache_slots(&self.assemblies);
        assert(retained(entries.take(0), cutoff_epoch, slots_per_epoch) + entries.skip(0)
            =~= entries);
        let mut i: usize = 0;
        while i < blocks.len()
            invariant
                i <= blocks@.len() == entries.len(),
                slots_per_epoch > 0,
                before.wf(),
                entries == before.entries,
                forall|j: int|
                    0 <= j < blocks@.len() ==> (#[trigger] blocks@[j]) == (
                        entries[j].0,
                        entries[j].1.slot,
                    ),
                self@.capacity == before.capacity,
                self@.entries == retained(entries.take(i as int), cutoff_epoch, slots_per_epoch)
                    + entries.skip(i as int),
            decreases blocks@.len() - i,
        {
            let (root, slot) = blocks[i];
            let ghost kept = retained(entries.take(i as int), cutoff_epoch, slots_per_epoch);
            let ghost current = self@.entries;
            proof {
                assert(entries.take(i + 1).drop_last() =~= entries.take(i as int));
                assert(entries.take(i + 1).last() == entries[i as int]);
                lemma_retained(entries.take(i as int), cutoff_epoch, slots_per_epoch);
                assert forall|k: int| 0 <= k < kept.len() implies entries.take(i as int).contains(
                    #[trigger] kept[k],
                ) by {
                    assert(kept.contains(kept[k]));
                }
                lemma_mid_remove(entries, kept, i as int);
            }
            if slot.epoch(slots_per_epoch).as_u64() < cutoff_epoch.as_u64() {
                cache_remove(&mut self.assemblies, &root);
                assert(self@.entries =~= kept + entries.skip(i + 1));
            } else {
                assert(current =~= kept.push(entries[i as int]) + entries.skip(i + 1));
            }
            i += 1;
        }
        proof {
            assert(entries.take(entries.len() as int) =~= entries);
            assert(entries.skip(entries.len() as int) =~= Seq::empty());
            assert(self@.entries =~= retained(entries, cutoff_epoch, slots_per_epoch));
            law_maintenance_keeps_recent_blocks(before, cutoff_epoch, slots_per_epoch);
            law_maintenance_goes_by_slots(before, cutoff_epoch, slots_per_epoch);
        }
    }
}

/// Retained entries are the recent ones among the entries.
proof fn lemma_retained(
    entries: Seq<(Hash256, AssemblyView)>,
    cutoff: Epoch,
    slots_per_epoch: u64,
)
    ensures
        retained(entries, cutoff, slots_per_epoch).len() <= entries.len(),
        forall|e: (Hash256, AssemblyView)| #[trigger]
            retained(entries, cutoff, slots_per_epoch).contains(e) <==> entries.contains(e)
                && is_recent(e.1, cutoff, slots_per_epoch),
    decreases entries.len(),
{
    if entries.len() > 0 {
        let init = entries.drop_last();
        let earlier = retained(init, cutoff, slots_per_epoch);
        lemma_retained(init, cutoff, slots_per_epoch);
        assert(init.push(entries.last()) =~= entries);
        assert forall|e: (Hash256, AssemblyView)| #[trigger]
            retained(entries, cutoff, slots_per_epoch).contains(e) <==> entries.contains(e)
            && is_recent(e.1, cutoff, slots_per_epoch) by {
            lemma_seq_contains_after_push(init, entries.last(), e);
            lemma_seq_contains_after_push(earlier, entries.last(), e);
            assert(earlier.contains(e) <==> init.contains(e) && is_recent(
                e.1,
                cutoff,
                slots_per_epoch,
            ));
        }
    }
}

/// Retained entries have distinct keys where the entries have.
proof fn lemma_retained_keys(
    entries: Seq<(Hash256, AssemblyView)>,
    cutoff: Epoch,
    slots_per_epoch: u64,
)
    requires
        keys_of(entries).no_duplicates(),
    ensures
        keys_of(retained(entries, cutoff, slots_per_epoch)).no_duplicates(),
    decreases entries.len(),
{
    if entries.len() > 0 {
        let init = entries.drop_last();
        let earlier = retained(init, cutoff, slots_per_epoch);
        let kept = retained(entries, cutoff, slots_per_epoch);
        assert(keys_of(init) =~= keys_of(entries).drop_last());
        lemma_retained_keys(init, cutoff, slots_per_epoch);
        lemma_retained(init, cutoff, slots_per_epoch);
        if is_recent(entries.last().1, cutoff, slots_per_epoch) {
            assert forall|a: int| 0 <= a < earlier.len() implies #[trigger] keys_of(earlier)[a]
                != entries.last().0 by {
                assert(earlier.contains(earlier[a]));
                let j = init.index_of(earlier[a]);
                assert(keys_of(entries)[j] == earlier[a].0);
                assert(keys_of(entries)[entries.len() - 1] == entries.last().0);
            }
            assert(keys_of(kept) =~= keys_of(earlier).push(entries.last().0));
        }
    }
}

/// Removing entry `i` from what was kept before it and all from it on leaves what was kept and all
/// behind it.
proof fn lemma_mid_remove(
    entries: Seq<(Hash256, AssemblyView)>,
    kept: Seq<(Hash256, AssemblyView)>,
    i: int,
)
    requires
        keys_of(entries).no_duplicates(),
        0 <= i < entries.len(),
        forall|k: int| 0 <= k < kept.len() ==> entries.take(i).contains(#[trigger] kept[k]),
    ensures
        without(kept + entries.skip(i), entries[i].0) == kept + entries.skip(i + 1),
{
    let all = kept + entries.skip(i);
    let at = kept.len() as int;
    assert(keys_of(all)[at] == entries[i].0);
    let place = keys_of(all).index_of(entries[i].0);
    if place < at {
        assert(all[place] == kept[place]);
        let j = entries.take(i).index_of(kept[place]);
        assert(keys_of(entries)[j] == keys_of(entries)[i]);
    } else if place > at {
        assert(all[place] == entries[i + (place - at)]);
        assert(keys_of(entries)[i + (place - at)] == keys_of(entries)[i]);
    }
    assert(all.remove(at) =~= kept + entries.skip(i + 1));
}

/// What the sidecars of columns hold.
pub open spec fn views_of(columns: Map<ColumnIndex, Arc<PayloadColumnSidecar>>) -> Map<
    ColumnIndex,
    SidecarView,
> {
    columns.map_values(|sidecar: Arc<PayloadColumnSidecar>| sidecar@)
}

/// Columns are held under the indices of their views.
proof fn lemma_view_of_columns(columns: Map<ColumnIndex, Arc<PayloadColumnSidecar>>)
    ensures
        views_of(columns).dom() == columns.dom(),
        views_of(columns).len() == columns.len(),
{
    assert(views_of(columns).dom() =~= columns.dom());
}

/// The keys of a map, in no particular order.
fn keys_held(columns: &HashMap<ColumnIndex, Arc<PayloadColumnSidecar>>) -> (result: Vec<
    ColumnIndex,
>)
    ensures
        result@.no_duplicates(),
        result@.to_set() == columns@.dom(),
        result@.len() == columns@.len(),
{
    let mut keys: Vec<ColumnIndex> = Vec::new();
    for key in it: columns.keys()
        invariant
            keys@ == it.seq().unref().take(it.index() as int),
            it.seq().unref().take(it.seq().len() as int) == it.seq().unref(),
    {
        keys.push(*key);
        assert(keys@ =~= it.seq().unref().take(it.index() + 1));
    }
    keys
}

/// Whether numbers are in strictly ascending order.
spec fn ascending(numbers: Seq<u64>) -> bool {
    forall|k: int, l: int| 0 <= k < l < numbers.len() ==> numbers[k] < numbers[l]
}

/// Puts distinct numbers in ascending order.
fn sorted(numbers: &Vec<u64>) -> (result: Vec<u64>)
    requires
        numbers@.no_duplicates(),
    ensures
        ascending(result@),
        result@.len() == numbers@.len(),
        forall|x: u64| #[trigger] result@.contains(x) <==> numbers@.contains(x),
{
    let mut result: Vec<u64> = Vec::new();
    let mut i: usize = 0;
    while i < numbers.len()
        invariant
            i <= numbers@.len(),
            numbers@.no_duplicates(),
            ascending(result@),
            result@.len() == i,
            forall|x: u64| #[trigger] result@.contains(x) <==> numbers@.take(i as int).contains(x),
        decreases numbers@.len() - i,
    {
        let x: u64 = numbers[i];
        let ghost earlier = result@;
        proof {
            if earlier.contains(x) {
                assert(numbers@.take(i as int).contains(x));
                let j = numbers@.take(i as int).index_of(x);
                assert(numbers@[j] == numbers@[i as int]);
            }
        }
        let mut p: usize = 0;
        while p < result.len() && result[p] < x
            invariant
                p <= result@.len(),
                result@ == earlier,
                forall|k: int| 0 <= k < p ==> result@[k] < x,
            decreases result@.len() - p,
        {
            p += 1;
        }
        assert(p < earlier.len() ==> earlier[p as int] > x) by {
            if p < earlier.len() {
                assert(earlier.contains(earlier[p as int]));
            }
        }
        result.insert(p, x);
        proof {
            assert(result@ == earlier.insert(p as int, x));
            assert forall|y: u64| #[trigger] result@.contains(y) <==> numbers@.take(
                i + 1,
            ).contains(y) by {
                lemma_insert_contains(earlier, p as int, x, y);
                assert(numbers@.take(i + 1) =~= numbers@.take(i as int).push(x));
                lemma_seq_contains_after_push(numbers@.take(i as int), x, y);
            }
        }
        i += 1;
    }
    assert(numbers@.take(i as int) =~= numbers@);
    result
}

proof fn lemma_insert_contains(s: Seq<u64>, p: int, x: u64, y: u64)
    requires
        0 <= p <= s.len(),
    ensures
        s.insert(p, x).contains(y) <==> s.contains(y) || x == y,
{
    if s.contains(y) {
        let k = s.index_of(y);
        assert(s.insert(p, x)[if k < p {
            k
        } else {
            k + 1
        }] == y);
    }
    assert(s.insert(p, x)[p] == x);
    if s.insert(p, x).contains(y) {
        let k = s.insert(p, x).index_of(y);
        if k < p {
            assert(s[k] == y);
        } else if k > p {
            assert(s[k - 1] == y);
        }
    }
}

/// Copies columns in ascending order of their indices.
fn columns_in_order(columns: &HashMap<ColumnIndex, Arc<PayloadColumnSidecar>>) -> (result: Vec<
    PayloadColumnSidecar,
>)
    requires
        forall|index: ColumnIndex| #[trigger]
            columns@.contains_key(index) ==> columns@[index]@.index == index,
    ensures
        lists(sidecars_of(result@), views_of(columns@)),
{
    let keys = keys_held(columns);
    let order = sorted(&keys);
    let ghost expected = Seq::new(order@.len(), |l: int| columns@[order@[l]]@);
    let mut listed: Vec<PayloadColumnSidecar> = Vec::new();
    let mut k: usize = 0;
    while k < order.len()
        invariant
            k <= order@.len(),
            listed@.len() == k,
            expected == Seq::new(order@.len(), |l: int| columns@[order@[l]]@),
            keys@.to_set() == columns@.dom(),
            forall|x: u64| #[trigger] order@.contains(x) <==> keys@.contains(x),
            sidecars_of(listed@) == expected.take(k as int),
        decreases order@.len() - k,
    {
        assert(order@.contains(order@[k as int]));
        assert(keys@.to_set().contains(order@[k as int]));
        if let Some(sidecar) = columns.get(&order[k]) {
            let ghost earlier = listed@;
            listed.push((&**sidecar).clone());
            assert(sidecars_of(listed@) =~= sidecars_of(earlier).push(expected[k as int]));
            assert(expected.take(k as int).push(expected[k as int]) =~= expected.take(k + 1));
        }
        k += 1;
    }
    proof {
        let all = sidecars_of(listed@);
        let views = views_of(columns@);
        lemma_view_of_columns(columns@);
        assert forall|k: int| 0 <= k < all.len() implies views.contains_key(
            (#[trigger] all[k]).index,
        ) && views[all[k].index] == all[k] && all[k].index == order@[k] by {
            assert(all[k] == expected.take(order@.len() as int)[k]);
            assert(order@.contains(order@[k]));
            assert(keys@.to_set().contains(order@[k]));
        }
        assert forall|index: ColumnIndex| #[trigger] views.contains_key(index) implies exists|k: int|
            0 <= k < all.len() && (#[trigger] all[k]).index == index by {
            assert(keys@.to_set().contains(index));
            assert(order@.contains(index));
            let k = order@.index_of(index);
            assert(all[k].index == order@[k]);
        }
    }
    listed
}

/// Refreshing an entry keeps keys distinct, and looks up as what it was refreshed with.
proof fn lemma_refresh(entries: Seq<(Hash256, AssemblyView)>, key: Hash256, value: AssemblyView)
    requires
        keys_of(entries).no_duplicates(),
    ensures
        keys_of(refreshed(entries, key, value)).no_duplicates(),
        entry_under(refreshed(entries, key, value), key) == Some(value),
        forall|other: Hash256|
            other != key ==> #[trigger] entry_under(refreshed(entries, key, value), other)
                == entry_under(entries, other),
        refreshed(entries, key, value).len() == entries.len() + (if keys_of(entries).contains(key) {
            0int
        } else {
            1
        }),
        forall|i: int|
            0 <= i < refreshed(entries, key, value).len() ==> (#[trigger] refreshed(
                entries,
                key,
                value,
            )[i]).1 == value || entries.contains(refreshed(entries, key, value)[i]),
{
    let rest = without(entries, key);
    let after = refreshed(entries, key, value);
    lemma_without(entries, key);
    assert(keys_of(after) =~= keys_of(rest).push(key));
    assert(keys_of(after)[rest.len() as int] == key);
    assert forall|other: Hash256| other != key implies #[trigger] entry_under(after, other)
        == entry_under(entries, other) by {
        assert(entry_under(rest, other) == entry_under(entries, other));
        if keys_of(rest).contains(other) {
            let i = keys_of(rest).index_of(other);
            assert(keys_of(after)[i] == other);
        } else if keys_of(after).contains(other) {
            let i = keys_of(after).index_of(other);
            assert(keys_of(rest)[i] == other);
        }
    }
    assert forall|i: int| 0 <= i < after.len() implies (#[trigger] after[i]).1 == value
        || entries.contains(after[i]) by {
        if i < rest.len() {
            assert(rest.contains(rest[i]));
        }
    }
}

/// Removing an entry keeps keys distinct, and leaves the other entries.
proof fn lemma_without(entries: Seq<(Hash256, AssemblyView)>, key: Hash256)
    requires
        keys_of(entries).no_duplicates(),
    ensures
        keys_of(without(entries, key)).no_duplicates(),
        !keys_of(without(entries, key)).contains(key),
        without(entries, key).len() == entries.len() - (if keys_of(entries).contains(key) {
            1int
        } else {
            0
        }),
        forall|other: Hash256|
            other != key ==> #[trigger] entry_under(without(entries, key), other) == entry_under(
                entries,
                other,
            ),
        forall|e: (Hash256, AssemblyView)| #[trigger]
            without(entries, key).contains(e) ==> entries.contains(e),
{
    let rest = without(entries, key);
    if keys_of(entries).contains(key) {
        let at = keys_of(entries).index_of(key);
        entries.remove_ensures(at);
        assert forall|i: int| 0 <= i < rest.len() implies #[trigger] keys_of(rest)[i] == keys_of(
            entries,
        )[if i < at {
            i
        } else {
            i + 1
        }] by {}
        assert forall|other: Hash256| other != key implies #[trigger] entry_under(rest, other)
            == entry_under(entries, other) by {
            if keys_of(entries).contains(other) {
                let i = keys_of(entries).index_of(other);
                let j = if i < at {
                    i
                } else {
                    i - 1
                };
                assert(rest[j] == entries[i]);
                assert(keys_of(rest)[j] == other);
            }
        }
        assert forall|e: (Hash256, AssemblyView)| #[trigger] rest.contains(e) implies entries.contains(
            e,
        ) by {
            let i = rest.index_of(e);
            assert(entries[if i < at {
                i
            } else {
                i + 1
            }] == e);
        }
    }
}

/// Refreshing an assembly with well-formed columns keeps the assembler well-formed.
proof fn lemma_with_keeps_wf(view: AssemblerView, block_root: Hash256, assembly: AssemblyView)
    requires
        view.wf(),
        view.lookup(block_root) is Some,
        columns_wf(assembly),
    ensures
        view.with(block_root, assembly).wf(),
{
    lemma_refresh(view.entries, block_root, assembly);
    let after = view.with(block_root, assembly);
    assert forall|i: int| 0 <= i < after.entries.len() implies columns_wf(
        #[trigger] after.entries[i].1,
    ) by {
        if after.entries[i].1 != assembly {
            let j = view.entries.index_of(after.entries[i]);
            assert(columns_wf(view.entries[j].1));
        }
    }
}

proof fn lemma_touch_keeps_wf(view: AssemblerView, block_root: Hash256)
    requires
        view.wf(),
    ensures
        view.touched(block_root).wf(),
{
    if keys_of(view.entries).contains(block_root) {
        let at = keys_of(view.entries).index_of(block_root);
        assert(columns_wf(view.entries[at].1));
        lemma_with_keeps_wf(view, block_root, view.lookup(block_root)->0);
    }
}

proof fn lemma_init_keeps_wf(view: AssemblerView, block_root: Hash256, slot: Slot, loaded: Hash256)
    requires
        view.wf(),
    ensures
        view.after_init(block_root, slot, loaded).wf(),
{
    if keys_of(view.entries).contains(block_root) {
        lemma_touch_keeps_wf(view, block_root);
    } else {
        let assembly = empty_assembly(slot, loaded);
        lemma_refresh(view.entries, block_root, assembly);
        let all = refreshed(view.entries, block_root, assembly);
        let after = view.after_init(block_root, slot, loaded).entries;
        assert forall|i: int| 0 <= i < all.len() implies columns_wf(#[trigger] all[i].1) by {
            if all[i].1 != assembly {
                let j = view.entries.index_of(all[i]);
                assert(columns_wf(view.entries[j].1));
            }
        }
        if all.len() > view.capacity {
            assert(keys_of(after) =~= keys_of(all).skip(1));
            assert forall|i: int| 0 <= i < after.len() implies columns_wf(#[trigger] after[i].1) by {
                assert(after[i] == all[i + 1]);
            }
        }
    }
}

/// The assembly of a block has well-formed columns.
proof fn lemma_lookup_wf(view: AssemblerView, block_root: Hash256)
    requires
        view.wf(),
    ensures
        view.lookup(block_root) is Some ==> columns_wf(view.lookup(block_root)->0),
{
    if keys_of(view.entries).contains(block_root) {
        let at = keys_of(view.entries).index_of(block_root);
        assert(columns_wf(view.entries[at].1));
    }
}

proof fn lemma_insert_keeps_wf(view: AssemblerView, block_root: Hash256, sidecar: SidecarView)
    requires
        view.wf(),
    ensures
        view.after_insert(block_root, sidecar).wf(),
{
    lemma_touch_keeps_wf(view, block_root);
    lemma_lookup_wf(view, block_root);
    if view.insert_outcome(block_root, sidecar) is Stored {
        let assembly = view.lookup(block_root)->0;
        let columns = assembly.columns.insert(sidecar.index, sidecar);
        assert(columns_wf(AssemblyView { columns, ..assembly }));
        lemma_with_keeps_wf(view, block_root, AssemblyView { columns, ..assembly });
    }
}

proof fn lemma_mark_keeps_wf(view: AssemblerView, block_root: Hash256, reconstructed: bool)
    requires
        view.wf(),
    ensures
        view.marked(block_root, reconstructed).wf(),
{
    lemma_lookup_wf(view, block_root);
    if view.lookup(block_root) is Some {
        lemma_with_keeps_wf(
            view,
            block_root,
            AssemblyView { reconstructed, ..view.lookup(block_root)->0 },
        );
    }
}

/// A place of a key in entries with distinct keys is the place that a lookup finds.
proof fn lemma_lookup_at(entries: Seq<(Hash256, AssemblyView)>, i: int)
    requires
        keys_of(entries).no_duplicates(),
        0 <= i < entries.len(),
    ensures
        entry_under(entries, entries[i].0) == Some(entries[i].1),
{
    assert(keys_of(entries)[i] == entries[i].0);
    let j = keys_of(entries).index_of(entries[i].0);
    assert(keys_of(entries)[j] == keys_of(entries)[i]);
}

/// Maintenance keeps the assembly of a block unchanged where the block is not before the cutoff
/// epoch, and drops it where it is.
pub proof fn law_maintenance_keeps_recent_blocks(
    view: AssemblerView,
    cutoff: Epoch,
    slots_per_epoch: u64,
)
    requires
        view.wf(),
    ensures
        view.after_maintenance(cutoff, slots_per_epoch).wf(),
        forall|block_root: Hash256| #[trigger]
            view.after_maintenance(cutoff, slots_per_epoch).lookup(block_root) == match view.lookup(
                block_root,
            ) {
                Some(assembly) => if is_recent(assembly, cutoff, slots_per_epoch) {
                    Some(assembly)
                } else {
                    None
                },
                None => None,
            },
{
    let after = view.after_maintenance(cutoff, slots_per_epoch);
    lemma_retained(view.entries, cutoff, slots_per_epoch);
    lemma_retained_keys(view.entries, cutoff, slots_per_epoch);
    assert forall|i: int| 0 <= i < after.entries.len() implies columns_wf(
        #[trigger] after.entries[i].1,
    ) by {
        assert(after.entries.contains(after.entries[i]));
        let j = view.entries.index_of(after.entries[i]);
        assert(columns_wf(view.entries[j].1));
    }
    assert forall|block_root: Hash256| #[trigger] after.lookup(block_root) == match view.lookup(
        block_root,
    ) {
        Some(assembly) => if is_recent(assembly, cutoff, slots_per_epoch) {
            Some(assembly)
        } else {
            None
        },
        None => None,
    } by {
        if keys_of(after.entries).contains(block_root) {
            let k = keys_of(after.entries).index_of(block_root);
            assert(after.entries.contains(after.entries[k]));
            let j = view.entries.index_of(after.entries[k]);
            lemma_lookup_at(view.entries, j);
        } else if keys_of(view.entries).contains(block_root) {
            let j = keys_of(view.entries).index_of(block_root);
            if is_recent(view.entries[j].1, cutoff, slots_per_epoch) {
                assert(view.entries.contains(view.entries[j]));
                assert(after.entries.contains(view.entries[j]));
                let k = after.entries.index_of(view.entries[j]);
                assert(keys_of(after.entries)[k] == block_root);
            }
        }
    }
}

/// Whatever happens to one block leaves the assembly of every other block as it was: looking it up,
/// offering a column for it, asking for its columns and clearing its mark.
pub proof fn law_other_blocks_unchanged(
    view: AssemblerView,
    block_root: Hash256,
    sidecar: SidecarView,
    other: Hash256,
)
    requires
        view.wf(),
        other != block_root,
    ensures
        view.touched(block_root).lookup(other) == view.lookup(other),
        view.after_insert(block_root, sidecar).lookup(other) == view.lookup(other),
        view.after_take(block_root).lookup(other) == view.lookup(other),
        view.marked(block_root, false).lookup(other) == view.lookup(other),
{
    match view.lookup(block_root) {
        Some(assembly) => {
            lemma_refresh(view.entries, block_root, assembly);
            lemma_refresh(
                view.entries,
                block_root,
                AssemblyView {
                    columns: assembly.columns.insert(sidecar.index, sidecar),
                    ..assembly
                },
            );
            let marked = AssemblyView { reconstructed: true, ..assembly };
            lemma_refresh(view.entries, block_root, marked);
            let cleared = AssemblyView { reconstructed: false, ..assembly };
            lemma_refresh(view.entries, block_root, cleared);
        },
        None => {},
    }
}

/// Looking a block up changes nothing of what is held, for this block or another.
pub proof fn law_lookup_survives_use(view: AssemblerView, block_root: Hash256, other: Hash256)
    requires
        view.wf(),
    ensures
        view.touched(block_root).lookup(other) == view.lookup(other),
{
    if view.lookup(block_root) is Some {
        lemma_refresh(view.entries, block_root, view.lookup(block_root)->0);
    }
}

/// Offering a column for a block adds the column to what is held for it where the column is stored,
/// and changes nothing otherwise.
pub proof fn law_insert_adds_the_column(
    view: AssemblerView,
    block_root: Hash256,
    sidecar: SidecarView,
)
    requires
        view.wf(),
    ensures
        view.after_insert(block_root, sidecar).lookup(block_root) == (if view.insert_outcome(
            block_root,
            sidecar,
        ) is Stored {
            let assembly = view.lookup(block_root)->0;
            Some(
                AssemblyView {
                    columns: assembly.columns.insert(sidecar.index, sidecar),
                    ..assembly
                },
            )
        } else {
            view.lookup(block_root)
        }),
{
    law_lookup_survives_use(view, block_root, block_root);
    if view.lookup(block_root) is Some {
        let assembly = view.lookup(block_root)->0;
        let columns = assembly.columns.insert(sidecar.index, sidecar);
        lemma_refresh(view.entries, block_root, AssemblyView { columns, ..assembly });
    }
}

/// A new block is entered without columns, unless nothing fits at all.
pub proof fn law_new_block_is_entered(
    view: AssemblerView,
    block_root: Hash256,
    slot: Slot,
    loaded: Hash256,
)
    requires
        view.wf(),
        view.lookup(block_root) is None,
    ensures
        view.after_init(block_root, slot, loaded).lookup(block_root) == (if view.capacity > 0 {
            Some(empty_assembly(slot, loaded))
        } else {
            None
        }),
{
    let assembly = empty_assembly(slot, loaded);
    let all = refreshed(view.entries, block_root, assembly);
    let after = view.after_init(block_root, slot, loaded);
    lemma_refresh(view.entries, block_root, assembly);
    lemma_init_keeps_wf(view, block_root, slot, loaded);
    assert(all =~= view.entries.push((block_root, assembly)));
    if view.capacity > 0 {
        assert(after.entries[after.entries.len() - 1] == (block_root, assembly));
        lemma_lookup_at(after.entries, after.entries.len() - 1);
    } else {
        assert(after.entries.len() == 0);
    }
}

/// Entering a new block keeps every other block, but for the least recently used one where there is
/// no room.
pub proof fn law_init_pushes_out_the_least_recently_used(
    view: AssemblerView,
    block_root: Hash256,
    slot: Slot,
    loaded: Hash256,
    other: Hash256,
)
    requires
        view.wf(),
        view.lookup(block_root) is None,
        other != block_root,
    ensures
        view.after_init(block_root, slot, loaded).lookup(other) == (if view.entries.len()
            == view.capacity && view.capacity > 0 && other == view.entries[0].0 {
            None
        } else {
            view.lookup(other)
        }),
{
    let assembly = empty_assembly(slot, loaded);
    let all = refreshed(view.entries, block_root, assembly);
    let after = view.after_init(block_root, slot, loaded);
    lemma_refresh(view.entries, block_root, assembly);
    assert(all =~= view.entries.push((block_root, assembly)));
    if all.len() > view.capacity {
        lemma_init_keeps_wf(view, block_root, slot, loaded);
        if keys_of(after.entries).contains(other) {
            let k = keys_of(after.entries).index_of(other);
            assert(after.entries[k] == view.entries[k + 1]);
            lemma_lookup_at(view.entries, k + 1);
            assert(keys_of(view.entries)[k + 1] != keys_of(view.entries)[0]);
        } else if keys_of(view.entries).contains(other) {
            let k = keys_of(view.entries).index_of(other);
            if k > 0 {
                assert(after.entries[k - 1] == view.entries[k]);
                assert(keys_of(after.entries)[k - 1] == other);
            }
        }
    }
}

/// Entering a block that is there already changes nothing of what it holds, and its root stays the
/// first one: a caller that loses the race to enter a block discards no column.
pub proof fn law_first_init_stays(
    view: AssemblerView,
    block_root: Hash256,
    slot: Slot,
    loaded: Hash256,
)
    requires
        view.wf(),
        view.lookup(block_root) is Some,
    ensures
        view.after_init(block_root, slot, loaded).lookup(block_root) == view.lookup(block_root),
        view.root_after_init(block_root, loaded) == view.lookup(block_root)->0.payload_columns_root,
{
    law_lookup_survives_use(view, block_root, block_root);
}

/// A stored column is held, and a column of the same index offered after it is refused without
/// changing what is held.
pub proof fn law_duplicates_are_refused(
    view: AssemblerView,
    block_root: Hash256,
    first: SidecarView,
    second: SidecarView,
)
    requires
        view.wf(),
        view.insert_outcome(block_root, first) is Stored,
        first.index == second.index,
    ensures
        ({
            let stored = view.after_insert(block_root, first);
            &&& stored.lookup(block_root)->0.columns == view.lookup(
                block_root,
            )->0.columns.insert(first.index, first)
            &&& stored.insert_outcome(block_root, second) == InsertOutcome::AlreadyKnown
            &&& stored.after_insert(block_root, second).lookup(block_root) == stored.lookup(
                block_root,
            )
        }),
{
    law_insert_adds_the_column(view, block_root, first);
    lemma_insert_keeps_wf(view, block_root, first);
    law_insert_adds_the_column(view.after_insert(block_root, first), block_root, second);
}

/// Once a block's columns have been taken for recovery, they are not taken again, and further
/// columns for the block are refused as redundant.
pub proof fn law_recovery_happens_once(
    view: AssemblerView,
    block_root: Hash256,
    sidecar: SidecarView,
)
    requires
        view.wf(),
        view.recovers(block_root),
    ensures
        ({
            let taken = view.after_take(block_root);
            &&& !taken.recovers(block_root)
            &&& taken.insert_outcome(block_root, sidecar) == InsertOutcome::AlreadyReconstructed
        }),
{
    let assembly = view.lookup(block_root)->0;
    lemma_refresh(view.entries, block_root, AssemblyView { reconstructed: true, ..assembly });
}

/// Clearing the mark after a recovery that failed lets the same columns be taken again.
pub proof fn law_failed_recovery_can_be_retried(view: AssemblerView, block_root: Hash256)
    requires
        view.wf(),
        view.recovers(block_root),
    ensures
        ({
            let cleared = view.after_take(block_root).marked(block_root, false);
            &&& cleared.recovers(block_root)
            &&& cleared.lookup(block_root) == view.lookup(block_root)
        }),
{
    let assembly = view.lookup(block_root)->0;
    let marked = AssemblyView { reconstructed: true, ..assembly };
    lemma_refresh(view.entries, block_root, marked);
    lemma_mark_keeps_wf(view, block_root, true);
    lemma_refresh(
        view.after_take(block_root).entries,
        block_root,
        AssemblyView { reconstructed: false, ..marked },
    );
}

/// The columns taken for recovery recover the payload, where each of them is the payload's column
/// at its index.
pub proof fn law_taken_columns_recover(
    view: AssemblerView,
    block_root: Hash256,
    taken: Seq<SidecarView>,
    all: Seq<SidecarView>,
)
    requires
        view.wf(),
        view.recovers(block_root),
        lists(taken, view.lookup(block_root)->0.columns),
        forall|index: ColumnIndex| #[trigger]
            view.lookup(block_root)->0.columns.contains_key(index) ==> index < CELLS_PER_EXT_BLOB
                && view.lookup(block_root)->0.columns[index] == all[index as int],
    ensures
        selected_from(taken, all),
{
    assert forall|k: int| 0 <= k < taken.len() implies #[trigger] indices_of(taken)[k]
        < CELLS_PER_EXT_BLOB by {
        assert(taken[k].index == indices_of(taken)[k]);
    }
}

/// Looking a block up changes nothing of what is held for any block.
proof fn lemma_use_changes_nothing(view: AssemblerView, block_root: Hash256)
    requires
        view.wf(),
    ensures
        forall|root: Hash256| #[trigger]
            view.touched(block_root).lookup(root) == view.lookup(root),
{
    assert forall|root: Hash256| #[trigger] view.touched(block_root).lookup(root) == view.lookup(
        root,
    ) by {
        law_lookup_survives_use(view, block_root, root);
    }
}

/// What is listed are the sidecars of all columns, in ascending order.
proof fn lemma_listed(taken: Seq<PayloadColumnSidecar>, columns: Map<ColumnIndex, SidecarView>)
    requires
        lists(sidecars_of(taken), columns),
    ensures
        taken.len() == columns.len(),
        forall|k: int|
            0 <= k < taken.len() ==> columns.contains_key((#[trigger] taken[k]).index)
                && taken[k]@ == columns[taken[k].index],
        forall|k: int, l: int|
            0 <= k < l < taken.len() ==> (#[trigger] taken[k]).index < (#[trigger] taken[l]).index,
{
    let listed = sidecars_of(taken);
    assert forall|k: int| 0 <= k < taken.len() implies columns.contains_key(
        (#[trigger] taken[k]).index,
    ) && taken[k]@ == columns[taken[k].index] by {
        assert(listed[k].index == taken[k].index);
    }
    assert forall|k: int, l: int| 0 <= k < l < taken.len() implies (#[trigger] taken[k]).index < (
    #[trigger] taken[l]).index by {
        assert(listed[k].index < listed[l].index);
    }
}

/// A block is held exactly where there is an entry for it, and what is held for it is in the entry.
pub proof fn law_lookup_finds_the_entry(
    view: AssemblerView,
    block_root: Hash256,
    assembly: AssemblyView,
)
    requires
        view.wf(),
    ensures
        view.lookup(block_root) == Some(assembly) <==> view.entries.contains(
            (block_root, assembly),
        ),
{
    if view.lookup(block_root) == Some(assembly) {
        let at = keys_of(view.entries).index_of(block_root);
        assert(keys_of(view.entries)[at] == view.entries[at].0);
        assert(view.entries[at] == (block_root, assembly));
    }
    if view.entries.contains((block_root, assembly)) {
        let at = view.entries.index_of((block_root, assembly));
        lemma_lookup_at(view.entries, at);
    }
}

/// Recovery can start exactly for a block that is held, was not recovered, and has 64 of the 128
/// columns or more.
pub proof fn law_recovery_starts_at_half(view: AssemblerView, block_root: Hash256)
    ensures
        view.recovers(block_root) <==> {
            &&& view.lookup(block_root) matches Some(assembly)
            &&& !assembly.reconstructed
            &&& assembly.columns.len() >= 64
        },
{
}

/// A block that can be recovered still can be after one more column has been offered for it, new or
/// not.
pub proof fn law_more_columns_do_not_stop_recovery(
    view: AssemblerView,
    block_root: Hash256,
    sidecar: SidecarView,
)
    requires
        view.wf(),
        view.recovers(block_root),
    ensures
        view.after_insert(block_root, sidecar).recovers(block_root),
        view.after_insert(block_root, sidecar).lookup(block_root)->0.columns.len() >= view.lookup(
            block_root,
        )->0.columns.len(),
{
    lemma_lookup_wf(view, block_root);
    law_insert_adds_the_column(view, block_root, sidecar);
}

/// The column that makes half of all makes its block recoverable, and no column before it does.
pub proof fn law_the_last_missing_column_starts_recovery(
    view: AssemblerView,
    block_root: Hash256,
    sidecar: SidecarView,
)
    requires
        view.wf(),
        view.lookup(block_root) is Some,
        !view.lookup(block_root)->0.reconstructed,
        !view.lookup(block_root)->0.columns.contains_key(sidecar.index),
    ensures
        view.after_insert(block_root, sidecar).recovers(block_root) <==> view.lookup(
            block_root,
        )->0.columns.len() >= 63,
{
    lemma_lookup_wf(view, block_root);
    law_insert_adds_the_column(view, block_root, sidecar);
}

/// A column is stored exactly where its block is held and was not recovered, and no column of its
/// index is held.
pub proof fn law_new_columns_are_stored(
    view: AssemblerView,
    block_root: Hash256,
    sidecar: SidecarView,
)
    ensures
        view.insert_outcome(block_root, sidecar) is Stored <==> {
            &&& view.lookup(block_root) matches Some(assembly)
            &&& !assembly.reconstructed
            &&& !assembly.columns.contains_key(sidecar.index)
        },
        view.insert_outcome(block_root, sidecar) is AlreadyReconstructed <==> {
            &&& view.lookup(block_root) matches Some(assembly)
            &&& assembly.reconstructed
        },
{
}

/// Taking columns sets the mark of their block where they are handed out, and changes nothing else
/// of what is held for it.
pub proof fn law_taking_sets_the_mark(view: AssemblerView, block_root: Hash256)
    requires
        view.wf(),
    ensures
        view.after_take(block_root).lookup(block_root) == match view.lookup(block_root) {
            Some(assembly) => Some(
                AssemblyView {
                    reconstructed: assembly.reconstructed || assembly.columns.len() >= 64,
                    ..assembly
                },
            ),
            None => None,
        },
        view.after_take(block_root).capacity == view.capacity,
{
    law_lookup_survives_use(view, block_root, block_root);
    if view.lookup(block_root) is Some {
        let assembly = view.lookup(block_root)->0;
        lemma_refresh(view.entries, block_root, AssemblyView { reconstructed: true, ..assembly });
    }
}

/// Clearing the mark of a block changes nothing else of what is held for it.
pub proof fn law_clearing_drops_the_mark(view: AssemblerView, block_root: Hash256)
    requires
        view.wf(),
    ensures
        view.marked(block_root, false).lookup(block_root) == match view.lookup(block_root) {
            Some(assembly) => Some(AssemblyView { reconstructed: false, ..assembly }),
            None => None,
        },
        view.marked(block_root, false).capacity == view.capacity,
{
    if view.lookup(block_root) is Some {
        let assembly = view.lookup(block_root)->0;
        lemma_refresh(view.entries, block_root, AssemblyView { reconstructed: false, ..assembly });
    }
}

/// Entries none of which is under a key stay where that key is filtered out.
proof fn lemma_filter_absent(entries: Seq<(Hash256, AssemblyView)>, key: Hash256)
    requires
        !keys_of(entries).contains(key),
    ensures
        entries.filter(|e: (Hash256, AssemblyView)| e.0 != key) == entries,
    decreases entries.len(),
{
    reveal(Seq::filter);
    if entries.len() > 0 {
        let init = entries.drop_last();
        assert(keys_of(entries)[entries.len() - 1] == entries.last().0);
        assert forall|i: int| 0 <= i < init.len() implies keys_of(init)[i] != key by {
            assert(keys_of(entries)[i] == keys_of(init)[i]);
        }
        lemma_filter_absent(init, key);
        assert(init.push(entries.last()) =~= entries);
    } else {
        assert(entries.filter(|e: (Hash256, AssemblyView)| e.0 != key) =~= entries);
    }
}

/// Removing the entry under a key is filtering the key out.
proof fn lemma_without_is_filter(entries: Seq<(Hash256, AssemblyView)>, key: Hash256)
    requires
        keys_of(entries).no_duplicates(),
    ensures
        without(entries, key) == entries.filter(|e: (Hash256, AssemblyView)| e.0 != key),
    decreases entries.len(),
{
    if !keys_of(entries).contains(key) {
        lemma_filter_absent(entries, key);
    } else {
        reveal(Seq::filter);
        let init = entries.drop_last();
        let at = keys_of(entries).index_of(key);
        assert(keys_of(init) =~= keys_of(entries).drop_last());
        assert(keys_of(entries)[at] == key);
        if at == entries.len() - 1 {
            assert forall|i: int| 0 <= i < init.len() implies keys_of(init)[i] != key by {
                assert(keys_of(entries)[i] != keys_of(entries)[at]);
            }
            lemma_filter_absent(init, key);
            assert(without(entries, key) =~= init);
        } else {
            assert(keys_of(init)[at] == key);
            let there = keys_of(init).index_of(key);
            assert(keys_of(entries)[there] == keys_of(entries)[at]);
            lemma_without_is_filter(init, key);
            assert(keys_of(entries)[entries.len() - 1] != keys_of(entries)[at]);
            assert(without(entries, key) =~= without(init, key).push(entries.last()));
        }
    }
}

/// A block that is looked up, offered a column, asked for its columns or cleared becomes the most
/// recently used one; the others keep their order, and so the order in which they are pushed out.
pub proof fn law_a_used_block_becomes_the_last(
    view: AssemblerView,
    block_root: Hash256,
    sidecar: SidecarView,
)
    requires
        view.wf(),
        view.lookup(block_root) is Some,
    ensures
        ({
            let others = view.entries.filter(|e: (Hash256, AssemblyView)| e.0 != block_root);
            &&& forall|after: AssemblerView|
                #![trigger after.entries]
                {
                    ||| after == view.touched(block_root)
                    ||| after == view.after_insert(block_root, sidecar)
                    ||| after == view.after_take(block_root)
                    ||| after == view.marked(block_root, false)
                } ==> {
                    &&& after.capacity == view.capacity
                    &&& after.entries.len() == view.entries.len()
                    &&& after.entries.last().0 == block_root
                    &&& after.entries.drop_last() == others
                }
        }),
{
    let others = view.entries.filter(|e: (Hash256, AssemblyView)| e.0 != block_root);
    lemma_without_is_filter(view.entries, block_root);
    lemma_without(view.entries, block_root);
    assert forall|after: AssemblerView|
        #![trigger after.entries]
        {
            ||| after == view.touched(block_root)
            ||| after == view.after_insert(block_root, sidecar)
            ||| after == view.after_take(block_root)
            ||| after == view.marked(block_root, false)
        } implies {
        &&& after.capacity == view.capacity
        &&& after.entries.len() == view.entries.len()
        &&& after.entries.last().0 == block_root
        &&& after.entries.drop_last() == others
    } by {
        assert(after.entries.drop_last() =~= without(view.entries, block_root));
    }
}

/// A block that is entered anew becomes the most recently used one. The others keep their order,
/// but for the least recently used one, which leaves where there is no room.
pub proof fn law_a_new_block_becomes_the_last(
    view: AssemblerView,
    block_root: Hash256,
    slot: Slot,
    loaded: Hash256,
)
    requires
        view.wf(),
        view.lookup(block_root) is None,
        view.capacity > 0,
    ensures
        ({
            let after = view.after_init(block_root, slot, loaded);
            let assembly = AssemblyView {
                payload_columns_root: loaded,
                slot,
                columns: Map::empty(),
                reconstructed: false,
            };
            &&& after.capacity == view.capacity
            &&& after.entries == (if view.entries.len() < view.capacity {
                view.entries
            } else {
                view.entries.skip(1)
            }).push((block_root, assembly))
        }),
{
    let after = view.after_init(block_root, slot, loaded);
    if view.entries.len() < view.capacity {
        assert(after.entries =~= view.entries.push((block_root, empty_assembly(slot, loaded))));
    } else {
        assert(after.entries =~= view.entries.skip(1).push(
            (block_root, empty_assembly(slot, loaded)),
        ));
    }
}

/// A slot lies in an epoch or later exactly where it is not before the epoch's first slot.
proof fn lemma_epoch_by_slots(slot: nat, cutoff: nat, slots_per_epoch: nat)
    requires
        slots_per_epoch > 0,
    ensures
        slot / slots_per_epoch >= cutoff <==> slot >= cutoff * slots_per_epoch,
{
    let epoch = slot / slots_per_epoch;
    vstd::arithmetic::div_mod::lemma_fundamental_div_mod(slot as int, slots_per_epoch as int);
    let rest = slot % slots_per_epoch;
    if epoch >= cutoff {
        assert(slot >= cutoff * slots_per_epoch) by (nonlinear_arith)
            requires
                slot == slots_per_epoch * epoch + rest,
                epoch >= cutoff,
        ;
    } else {
        assert(slot < cutoff * slots_per_epoch) by (nonlinear_arith)
            requires
                slot == slots_per_epoch * epoch + rest,
                rest < slots_per_epoch,
                epoch + 1 <= cutoff,
        ;
    }
}

/// Maintenance keeps exactly the blocks from the first slot of the cutoff epoch on, as they are and
/// in their order.
pub proof fn law_maintenance_goes_by_slots(
    view: AssemblerView,
    cutoff: Epoch,
    slots_per_epoch: u64,
)
    requires
        slots_per_epoch > 0,
    ensures
        view.after_maintenance(cutoff, slots_per_epoch).capacity == view.capacity,
        view.after_maintenance(cutoff, slots_per_epoch).entries == view.entries.filter(
            |e: (Hash256, AssemblyView)| e.1.slot.0 >= cutoff.0 * slots_per_epoch,
        ),
{
    lemma_retained_is_filter(view.entries, cutoff, slots_per_epoch);
}

proof fn lemma_retained_is_filter(
    entries: Seq<(Hash256, AssemblyView)>,
    cutoff: Epoch,
    slots_per_epoch: u64,
)
    requires
        slots_per_epoch > 0,
    ensures
        retained(entries, cutoff, slots_per_epoch) == entries.filter(
            |e: (Hash256, AssemblyView)| e.1.slot.0 >= cutoff.0 * slots_per_epoch,
        ),
    decreases entries.len(),
{
    reveal(Seq::filter);
    if entries.len() > 0 {
        lemma_retained_is_filter(entries.drop_last(), cutoff, slots_per_epoch);
        let slot = entries.last().1.slot;
        lemma_epoch_by_slots(slot.0 as nat, cutoff.0 as nat, slots_per_epoch as nat);
        vstd::arithmetic::div_mod::lemma_div_is_ordered_by_denominator(
            slot.0 as int,
            1,
            slots_per_epoch as int,
        );
    }
}

} // verus!
