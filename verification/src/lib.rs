//! Preserves operator-added node taints across node object recreation.
//!
//! On node deletion (Cleanup phase) the non-system taints are persisted to an
//! external record keyed by a digest of the node identity; on node creation
//! (Apply phase) the persisted taints are merged back without overwriting
//! taints already present on the live object. The reconciliation logic is a
//! pure function of the observed node state; the surrounding driver performs
//! the actual API calls and feeds the results back in.

pub mod backoff;
pub mod codec;
pub mod laws;
pub mod metrics;
pub mod model;
pub mod policy;
pub mod reconcile;
pub mod record;
pub mod text;
