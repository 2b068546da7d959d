//! Payload columns: packing an execution payload into blobs, extending the blobs into columns,
//! committing to the columns, collecting them from the network and recovering the payload.

pub mod arith;
pub mod assembly_cache;
pub mod bitarray;
pub mod column_selection;
pub mod containers;
pub mod error;
pub mod eth_spec;
pub mod fetch_blobs;
pub mod kzg;
pub mod merkle_proof;
pub mod payload_codec;
pub mod payload_column_assembler;
pub mod payload_column_sidecar;
pub mod payload_column_subnet_id;
pub mod payload_column_utils;
pub mod payload_column_verification;
pub mod primitives;
pub mod sha256;
pub mod text;
