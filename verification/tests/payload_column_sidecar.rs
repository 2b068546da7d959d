use payload_columns::containers::{ContainerError, PayloadColumn};
use payload_columns::eth_spec::{EthSpec, MainnetEthSpec, MinimalEthSpec};
use payload_columns::merkle_proof::{
    merkle_root_from_branch, verify_merkle_proof, MerkleTree, MerkleTreeError,
};
use payload_columns::payload_column_sidecar::{
    column_root, PayloadColumnSidecar, PAYLOAD_COLUMNS_INCLUSION_PROOF_DEPTH,
};
use payload_columns::payload_column_utils::{
    build_sidecars_from_columns, transpose_rows_into_columns,
};
use payload_columns::primitives::{Epoch, Hash256, Slot, ZERO_ROOT};
use payload_columns::sha256::hash32_concat;

/// The proof depth is hard-coded, so it must stay in step with the number of columns for every
/// preset.
#[test]
fn test_proof_depth_matches_number_of_columns() {
    fn assert_depth<E: EthSpec>() {
        assert_eq!(
            1usize << PAYLOAD_COLUMNS_INCLUSION_PROOF_DEPTH,
            E::number_of_columns(),
        );
    }
    assert_depth::<MainnetEthSpec>();
    assert_depth::<MinimalEthSpec>();
}

type E = MinimalEthSpec;

fn make_column(marker: u8, cells: usize) -> PayloadColumn {
    let cells = (0..cells)
        .map(|i| {
            let mut cell = vec![0u8; 2048];
            cell[0] = marker;
            cell[1] = i as u8;
            cell
        })
        .collect::<Vec<_>>();
    PayloadColumn::new(cells).expect("cell count is within bounds")
}

/// Builds the two-level commitment over `columns` and returns the sidecars plus the root.
fn build(columns: Vec<PayloadColumn>) -> (Vec<PayloadColumnSidecar>, Hash256) {
    let depth = PAYLOAD_COLUMNS_INCLUSION_PROOF_DEPTH;
    let leaves = columns.iter().map(column_root).collect::<Vec<_>>();
    let tree = MerkleTree::create(&leaves, depth);

    let sidecars = columns
        .into_iter()
        .enumerate()
        .map(|(index, column)| {
            let (_, proof) = tree
                .generate_proof(index as u64, depth)
                .expect("index is within the tree");
            PayloadColumnSidecar {
                index: index as u64,
                column,
                column_inclusion_proof: proof.try_into().expect("proof length equals depth"),
                slot: Slot::new(1),
                beacon_block_root: [9; 32],
            }
        })
        .collect();

    (sidecars, tree.hash())
}

#[test]
fn inclusion_proof_verifies_for_every_column() {
    let columns = (0..E::number_of_columns())
        .map(|i| make_column(i as u8, 3))
        .collect();
    let (sidecars, root) = build(columns);

    assert_eq!(sidecars.len(), E::number_of_columns());
    for sidecar in &sidecars {
        assert!(
            sidecar.verify_inclusion_proof(root),
            "column {} should verify",
            sidecar.index
        );
    }
}

#[test]
fn inclusion_proof_fails_for_mutated_cell() {
    let columns = (0..E::number_of_columns())
        .map(|i| make_column(i as u8, 3))
        .collect();
    let (mut sidecars, root) = build(columns);

    let sidecar = sidecars.get_mut(5).expect("column 5 exists");
    let mut cells = sidecar.column.clone().into_cells();
    cells[0][0] ^= 0xff;
    sidecar.column = PayloadColumn::new(cells).expect("cell count is within bounds");
    assert!(!sidecar.verify_inclusion_proof(root));
}

#[test]
fn inclusion_proof_fails_for_wrong_index() {
    let columns = (0..E::number_of_columns())
        .map(|i| make_column(i as u8, 3))
        .collect();
    let (mut sidecars, root) = build(columns);

    let sidecar = sidecars.get_mut(5).expect("column 5 exists");
    sidecar.index = 6;
    assert!(!sidecar.verify_inclusion_proof(root));
}

#[test]
fn inclusion_proof_fails_against_wrong_root() {
    let columns = (0..E::number_of_columns())
        .map(|i| make_column(i as u8, 3))
        .collect();
    let (sidecars, _) = build(columns);

    let sidecar = sidecars.first().expect("column 0 exists");
    assert!(!sidecar.verify_inclusion_proof([0xaa; 32]));
}

#[test]
fn built_sidecars_carry_the_same_branches() {
    let columns = (0..E::number_of_columns())
        .map(|i| make_column(i as u8, 2))
        .collect::<Vec<_>>();
    let (expected, root) = build(columns.clone());
    let (sidecars, built_root) = build_sidecars_from_columns(columns, [9; 32], Slot::new(1))
        .expect("should build");
    assert_eq!(built_root, root);
    assert_eq!(sidecars, expected);
}

#[test]
fn few_columns_are_committed_to_with_zero_leaves() {
    let columns = vec![make_column(1, 1), make_column(2, 1), make_column(3, 1)];
    let (sidecars, root) =
        build_sidecars_from_columns(columns, ZERO_ROOT, Slot::new(0)).expect("should build");
    assert_eq!(sidecars.len(), 3);
    assert!(sidecars.iter().all(|s| s.verify_inclusion_proof(root)));
    // The sibling of the third leaf is missing.
    assert_eq!(sidecars[2].column_inclusion_proof[0], ZERO_ROOT);
}

#[test]
fn column_root_depends_on_cells_and_their_number() {
    let root = column_root(&make_column(1, 2));
    assert_eq!(root, column_root(&make_column(1, 2)));
    assert_ne!(root, column_root(&make_column(2, 2)));
    assert_ne!(root, column_root(&make_column(1, 3)));
    assert_ne!(column_root(&PayloadColumn::empty()), ZERO_ROOT);
    let sidecar = &build(vec![make_column(1, 2)]).0[0];
    assert_eq!(sidecar.column_root(), root);
}

#[test]
fn sidecar_epoch_depends_on_the_preset() {
    let mut sidecar = build(vec![make_column(1, 1)]).0.remove(0);
    sidecar.slot = Slot::new(65);
    assert_eq!(sidecar.epoch::<MainnetEthSpec>(), Epoch::new(2));
    assert_eq!(sidecar.epoch::<MinimalEthSpec>(), Epoch::new(8));
}

#[test]
fn column_refuses_cells_of_another_size() {
    let cells = vec![vec![0u8; 2048], vec![0u8; 2047], vec![0u8; 1]];
    assert_eq!(
        PayloadColumn::new(cells),
        Err(ContainerError::OutOfBounds { i: 2047, len: 2048 })
    );
}

#[test]
fn tree_of_two_leaves_hashes_the_pair() {
    let (a, b) = ([1u8; 32], [2u8; 32]);
    let tree = MerkleTree::create(&vec![a, b], 1);
    assert_eq!(tree.hash(), hash32_concat(&a, &b));
    let (leaf, branch) = tree.generate_proof(1, 1).expect("should prove");
    assert_eq!(leaf, b);
    assert_eq!(branch, vec![a]);
    assert_eq!(merkle_root_from_branch(b, &branch, 1), tree.hash());
    assert!(verify_merkle_proof(b, &branch, 1, 1, tree.hash()));
    assert!(!verify_merkle_proof(b, &branch, 1, 0, tree.hash()));
    assert!(!verify_merkle_proof(b, &branch, 2, 1, tree.hash()));
}

#[test]
fn sha256_of_two_zero_roots() {
    // The well-known root of a tree of two zero leaves.
    assert_eq!(
        hash32_concat(&ZERO_ROOT, &ZERO_ROOT),
        [
            0xf5, 0xa5, 0xfd, 0x42, 0xd1, 0x6a, 0x20, 0x30, 0x27, 0x98, 0xef, 0x6e, 0xd3, 0x09,
            0x97, 0x9b, 0x43, 0x00, 0x3d, 0x23, 0x20, 0xd9, 0xf0, 0xe8, 0xea, 0x98, 0x31, 0xa9,
            0x27, 0x59, 0xfb, 0x4b,
        ]
    );
    assert_eq!(MerkleTree::create(&Vec::new(), 1).hash(), hash32_concat(&ZERO_ROOT, &ZERO_ROOT));
}

#[test]
fn a_leaf_has_no_deeper_proof() {
    let tree = MerkleTree::create(&vec![[1u8; 32]], 0);
    assert!(matches!(
        tree.generate_proof(0, 3),
        Err(MerkleTreeError::PleaseNotifyTheDevs)
    ));
}

#[test]
fn transposing_turns_rows_into_columns() {
    let row = |tag: u8| (0..128).map(|c| vec![tag ^ c as u8; 2048]).collect::<Vec<_>>();
    let rows = vec![row(0), row(0x80)];
    let columns = transpose_rows_into_columns::<E>(&rows).expect("should transpose");
    assert_eq!(columns.len(), 128);
    for (c, column) in columns.iter().enumerate() {
        assert_eq!(column.as_cells(), &vec![vec![c as u8; 2048], vec![0x80 ^ c as u8; 2048]]);
    }
    assert_eq!(
        transpose_rows_into_columns::<E>(&Vec::new()).expect("should transpose").len(),
        128
    );
}

/// The root of `depth` levels over `leaf` at the left, with zero leaves beside it.
fn left_most(leaf: Hash256, depth: usize) -> Hash256 {
    let mut zero = ZERO_ROOT;
    let mut root = leaf;
    for _ in 0..depth {
        root = hash32_concat(&root, &zero);
        zero = hash32_concat(&zero, &zero);
    }
    root
}

#[test]
fn column_root_is_the_hash_tree_root_of_a_list_of_cells() {
    // A column has up to 4096 cells, and a list is hashed with its length.
    assert_eq!(
        column_root(&PayloadColumn::empty()),
        hash32_concat(&left_most(ZERO_ROOT, 12), &ZERO_ROOT)
    );
    // A cell has 64 chunks of 32 bytes, of which only the first is not zero here.
    let mut chunk = ZERO_ROOT;
    chunk[0] = 7;
    let cell_root = left_most(chunk, 6);
    let mut one = ZERO_ROOT;
    one[0] = 1;
    assert_eq!(
        column_root(&make_column(7, 1)),
        hash32_concat(&left_most(cell_root, 12), &one)
    );
}

#[test]
fn every_index_of_a_tree_opens() {
    let leaves = (1..=5u8).map(|i| [i; 32]).collect::<Vec<_>>();
    let tree = MerkleTree::create(&leaves, 3);
    for index in 0..8u64 {
        let (leaf, branch) = tree.generate_proof(index, 3).expect("should prove");
        let expected = leaves.get(index as usize).copied().unwrap_or(ZERO_ROOT);
        assert_eq!(leaf, expected);
        assert_eq!(branch.len(), 3);
        assert!(verify_merkle_proof(leaf, &branch, 3, index, tree.hash()));
    }
    // Only the low bits of an index count.
    assert_eq!(
        tree.generate_proof(11, 3).expect("should prove").0,
        tree.generate_proof(3, 3).expect("should prove").0
    );
}
