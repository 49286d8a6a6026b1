//! Aggregation engine of a federated-learning service: client registry,
//! cycle bookkeeping, the decrypt-and-average pass and the masked
//! (pairwise-cancelling) reconstruction of integer sums.
pub mod error;
pub mod keys;
pub mod mode;
pub mod plain;
pub mod smpc;
pub mod state;

pub use error::AggregatorError;
pub use keys::{
    DeriveKeyRequest, KeyCurve, KeyId, bls12_381_g2_test_key_1, client_key_request,
    key_material_hex, update_key_request,
};
pub use mode::{AggregationMode, mode_from_name, mode_name};
pub use plain::{PlainPass, open_update};
pub use smpc::{SMPC_SCALE, SmpcTotals, reconstruct_totals};
pub use state::State;
