//! Data model: taints, observed node state, and the library's error kinds.

use vstd::prelude::*;

verus! {

/// Mathematical view of a taint: key, optional value, effect, all as
/// character sequences.
pub ghost struct TaintView {
    pub key: Seq<char>,
    pub value: Option<Seq<char>>,
    pub effect: Seq<char>,
}

/// A node taint: a key/value/effect triple. Merging considers taints equal
/// when their keys are equal; value and effect ride along.
#[derive(Debug, PartialEq, Eq)]
pub struct Taint {
    pub key: String,
    pub value: Option<String>,
    pub effect: String,
}

impl View for Taint {
    type V = TaintView;

    open spec fn view(&self) -> TaintView {
        TaintView {
            key: self.key@,
            value: match self.value {
                Some(v) => Some(v@),
                None => None,
            },
            effect: self.effect@,
        }
    }
}

impl Clone for Taint {
    fn clone(&self) -> (r: Self)
        ensures
            r@ == self@,
    {
        Taint {
            key: self.key.clone(),
            value: match &self.value {
                Some(v) => Some(v.clone()),
                None => None,
            },
            effect: self.effect.clone(),
        }
    }
}

/// The views of a sequence of taints.
pub open spec fn taints_view(ts: Seq<Taint>) -> Seq<TaintView> {
    ts.map_values(|t: Taint| t@)
}

/// Whether some taint in `ts` carries the key `k`.
pub open spec fn has_taint_key(ts: Seq<TaintView>, k: Seq<char>) -> bool {
    exists|i: int| 0 <= i < ts.len() && ts[i].key == k
}

/// Mathematical view of the observed node state.
pub ghost struct NodeStateView {
    pub name: Option<Seq<char>>,
    pub taints: Seq<TaintView>,
    pub has_restored_annotation: bool,
    pub has_finalizer: bool,
    pub deletion_timestamp: Option<i64>,
}

/// The slice of a node object that the reconciliation logic reads: identity,
/// live taints, presence of the idempotence annotation and of this service's
/// finalizer, and the deletion timestamp (as Unix seconds) if the object is
/// marked for deletion.
pub struct NodeState {
    pub name: Option<String>,
    pub taints: Vec<Taint>,
    pub has_restored_annotation: bool,
    pub has_finalizer: bool,
    pub deletion_timestamp: Option<i64>,
}

impl View for NodeState {
    type V = NodeStateView;

    open spec fn view(&self) -> NodeStateView {
        NodeStateView {
            name: match self.name {
                Some(n) => Some(n@),
                None => None,
            },
            taints: taints_view(self.taints@),
            has_restored_annotation: self.has_restored_annotation,
            has_finalizer: self.has_finalizer,
            deletion_timestamp: self.deletion_timestamp,
        }
    }
}

/// Failures surfaced to the driver. Variants mirror the error kinds of the
/// reconciliation protocol; the driver attaches transport detail on its side.
#[derive(Debug)]
pub enum Error {
    /// The node snapshot carries no usable identity; fatal for the invocation.
    MissingNodeName,
    /// A read or write against the external store failed (other than
    /// "record absent", which is not an error); retryable.
    Store,
    /// The persisted taint record held malformed JSON; the Apply attempt
    /// fails closed instead of guessing.
    Serialization,
    /// The finalizer protocol's expectations were violated.
    Finalizer,
}

/// Key of the idempotence annotation on the node object; its presence means
/// the Apply phase already completed for this lifecycle.
pub fn restored_annotation_key() -> (r: &'static str)
    ensures
        r@ == "nodetaintpreserver.example.com/taints-restored"@,
{
    "nodetaintpreserver.example.com/taints-restored"
}

/// Value written under the idempotence annotation key; presence alone is
/// authoritative, the value is not interpreted.
pub fn restored_annotation_value() -> (r: &'static str)
    ensures
        r@ == "1"@,
{
    "1"
}

/// Finalizer attached to node objects to block deletion until Cleanup ran.
pub fn finalizer_name() -> (r: &'static str)
    ensures
        r@ == "nodetaintpreserver.example.com/finalizer"@,
{
    "nodetaintpreserver.example.com/finalizer"
}

/// Key inside the persisted record under which the JSON taint list is stored.
pub fn json_storage_key() -> (r: &'static str)
    ensures
        r@ == "preserved_taints_json"@,
{
    "preserved_taints_json"
}

/// Annotation on the persisted record naming the originating node.
pub fn record_node_annotation_key() -> (r: &'static str)
    ensures
        r@ == "nodetaintpreserver.example.com/node-name"@,
{
    "nodetaintpreserver.example.com/node-name"
}

/// Field-manager identifier under which this service patches objects.
pub fn service_name() -> (r: &'static str)
    ensures
        r@ == "node-taint-preserver"@,
{
    "node-taint-preserver"
}

} // verus!
