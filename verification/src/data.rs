//! The data model: object references and owners, the object-change
//! taxonomy, event bodies, and the payload envelope.
//!
//! Ledger identities (object ids, versions, digests, addresses) are held
//! as plain integers; an object's state is held as its raw content bytes
//! plus the facts the engine reads of it. Every type has a mathematical
//! view (`deep_view`) that the contracts are stated over.

use vstd::prelude::*;
use crate::topic::TxInfoNodeStreamTopic;

verus! {

/// The addressing triple of one historical object state:
/// (object id, version, content digest).
#[derive(PartialEq, Eq, Structural, Clone, Copy, Debug)]
pub struct ObjectRef {
    pub id: u64,
    pub version: u64,
    pub digest: u64,
}

/// The access-control descriptor attached to an object at a given state.
#[derive(PartialEq, Eq, Structural, Clone, Copy, Debug)]
pub enum Owner {
    Address(u64),
    Object(u64),
    Shared(u64),
    Immutable,
}

/// An object reference together with the owner it has at that state.
#[derive(PartialEq, Eq, Structural, Clone, Copy, Debug)]
pub struct OwnedRef {
    pub reference: ObjectRef,
    pub owner: Owner,
}

/// One entry of the loaded-child-objects map: an object read, not
/// mutated, as a child during execution.
#[derive(PartialEq, Eq, Structural, Clone, Copy, Debug)]
pub struct ChildEntry {
    pub id: u64,
    pub version: u64,
}

/// The gas accounting of one transaction's effects.
#[derive(PartialEq, Eq, Structural, Clone, Copy, Debug)]
pub struct GasCostSummary {
    pub computation_cost: u64,
    pub storage_cost: u64,
    pub storage_rebate: u64,
    pub non_refundable_storage_fee: u64,
}

/// One observed object-lifecycle transition within a single transaction.
#[derive(PartialEq, Eq, Structural, Clone, Copy, Debug)]
pub enum ObjectChangeStatus {
    Created(ObjectRef, Owner),
    Mutated(ObjectRef, Owner),
    Deleted(ObjectRef),
    Wrapped(ObjectRef),
    Unwrapped(ObjectRef, Owner),
    UnwrappedThenDeleted(ObjectRef),
    LoadedChildObject(u64, u64),
}

/// One resolved object state: its identity, whether it is a published
/// package, and its raw content bytes.
#[derive(PartialEq, Eq, Clone, Debug)]
pub struct Object {
    pub id: u64,
    pub version: u64,
    pub digest: u64,
    pub is_package: bool,
    pub contents: Vec<u8>,
}

/// Mathematical view of [`Object`].
#[verifier::ext_equal]
pub struct ObjectV {
    pub id: u64,
    pub version: u64,
    pub digest: u64,
    pub is_package: bool,
    pub contents: Seq<u8>,
}

impl DeepView for Object {
    type V = ObjectV;

    open spec fn deep_view(&self) -> ObjectV {
        ObjectV {
            id: self.id,
            version: self.version,
            digest: self.digest,
            is_package: self.is_package,
            contents: self.contents@,
        }
    }
}

/// One move call recorded on a transaction: the package it targets and
/// the module and function names invoked.
#[derive(PartialEq, Eq, Clone, Debug)]
pub struct MoveCallRec {
    pub package: u64,
    pub module: String,
    pub function: String,
}

/// Mathematical view of [`MoveCallRec`].
#[verifier::ext_equal]
pub struct MoveCallV {
    pub package: u64,
    pub module: Seq<char>,
    pub function: Seq<char>,
}

impl DeepView for MoveCallRec {
    type V = MoveCallV;

    open spec fn deep_view(&self) -> MoveCallV {
        MoveCallV { package: self.package, module: self.module@, function: self.function@ }
    }
}

/// The logical content of one verified transaction, as the engine reads
/// it: the sender and the recorded move calls, in call order.
#[derive(PartialEq, Eq, Clone, Debug)]
pub struct TransactionData {
    pub sender: u64,
    pub move_calls: Vec<MoveCallRec>,
}

/// Mathematical view of [`TransactionData`].
#[verifier::ext_equal]
pub struct TransactionDataV {
    pub sender: u64,
    pub move_calls: Seq<MoveCallV>,
}

impl DeepView for TransactionData {
    type V = TransactionDataV;

    open spec fn deep_view(&self) -> TransactionDataV {
        TransactionDataV { sender: self.sender, move_calls: self.move_calls.deep_view() }
    }
}

/// The immutable record of all state changes produced by executing one
/// transaction, as ordered sequences per lifecycle category.
#[derive(PartialEq, Eq, Clone, Debug)]
pub struct TransactionEffects {
    pub created: Vec<OwnedRef>,
    pub mutated: Vec<OwnedRef>,
    pub deleted: Vec<ObjectRef>,
    pub wrapped: Vec<ObjectRef>,
    pub unwrapped: Vec<OwnedRef>,
    pub unwrapped_then_deleted: Vec<ObjectRef>,
    pub gas: GasCostSummary,
}

/// Mathematical view of [`TransactionEffects`].
#[verifier::ext_equal]
pub struct TransactionEffectsV {
    pub created: Seq<OwnedRef>,
    pub mutated: Seq<OwnedRef>,
    pub deleted: Seq<ObjectRef>,
    pub wrapped: Seq<ObjectRef>,
    pub unwrapped: Seq<OwnedRef>,
    pub unwrapped_then_deleted: Seq<ObjectRef>,
    pub gas: GasCostSummary,
}

impl DeepView for TransactionEffects {
    type V = TransactionEffectsV;

    open spec fn deep_view(&self) -> TransactionEffectsV {
        TransactionEffectsV {
            created: self.created@,
            mutated: self.mutated@,
            deleted: self.deleted@,
            wrapped: self.wrapped@,
            unwrapped: self.unwrapped@,
            unwrapped_then_deleted: self.unwrapped_then_deleted@,
            gas: self.gas,
        }
    }
}

/// One event body: the payload actually published.
#[derive(PartialEq, Eq, Clone, Debug)]
pub enum TxInfoData {
    String(String),
    PackagePublish(Object),
    ObjectChangeLight(ObjectChangeStatus),
    ObjectChangeRaw(ObjectChangeStatus, Option<Object>),
    MoveCall(u64, String, String),
    Transaction(TransactionData),
    Effects(TransactionEffects),
    GasCostSummary(GasCostSummary),
}

/// Mathematical view of [`TxInfoData`].
#[verifier::ext_equal]
pub enum TxInfoDataV {
    String(Seq<char>),
    PackagePublish(ObjectV),
    ObjectChangeLight(ObjectChangeStatus),
    ObjectChangeRaw(ObjectChangeStatus, Option<ObjectV>),
    MoveCall(u64, Seq<char>, Seq<char>),
    Transaction(TransactionDataV),
    Effects(TransactionEffectsV),
    GasCostSummary(GasCostSummary),
}

impl DeepView for TxInfoData {
    type V = TxInfoDataV;

    open spec fn deep_view(&self) -> TxInfoDataV {
        match self {
            TxInfoData::String(s) => TxInfoDataV::String(s@),
            TxInfoData::PackagePublish(o) => TxInfoDataV::PackagePublish(o.deep_view()),
            TxInfoData::ObjectChangeLight(c) => TxInfoDataV::ObjectChangeLight(*c),
            TxInfoData::ObjectChangeRaw(c, o) => TxInfoDataV::ObjectChangeRaw(*c, o.deep_view()),
            TxInfoData::MoveCall(p, m, f) => TxInfoDataV::MoveCall(*p, m@, f@),
            TxInfoData::Transaction(t) => TxInfoDataV::Transaction(t.deep_view()),
            TxInfoData::Effects(e) => TxInfoDataV::Effects(e.deep_view()),
            TxInfoData::GasCostSummary(g) => TxInfoDataV::GasCostSummary(*g),
        }
    }
}

/// The metadata attached identically to every event derived from one
/// transaction. Immutable once constructed.
#[derive(PartialEq, Eq, Structural, Clone, Copy, Debug)]
pub struct TxInfoMetadata {
    pub message_process_timestamp_ms: u64,
    pub checkpoint_id: u64,
    pub sender: u64,
    pub tx_digest: u64,
}

/// The payload envelope: one event body paired with the metadata common
/// to every event of its transaction.
#[derive(PartialEq, Eq, Clone, Debug)]
pub struct NodeStreamPayload {
    pub metadata: TxInfoMetadata,
    pub data: TxInfoData,
}

/// Mathematical view of [`NodeStreamPayload`].
#[verifier::ext_equal]
pub struct NodeStreamPayloadV {
    pub metadata: TxInfoMetadata,
    pub data: TxInfoDataV,
}

impl DeepView for NodeStreamPayload {
    type V = NodeStreamPayloadV;

    open spec fn deep_view(&self) -> NodeStreamPayloadV {
        NodeStreamPayloadV { metadata: self.metadata, data: self.data.deep_view() }
    }
}

/// The event kind one event body is published under.
pub open spec fn spec_to_topic(d: TxInfoDataV) -> TxInfoNodeStreamTopic {
    match d {
        TxInfoDataV::String(_) => TxInfoNodeStreamTopic::String,
        TxInfoDataV::PackagePublish(_) => TxInfoNodeStreamTopic::PackagePublish,
        TxInfoDataV::ObjectChangeLight(_) => TxInfoNodeStreamTopic::ObjectChangeLight,
        TxInfoDataV::ObjectChangeRaw(_, _) => TxInfoNodeStreamTopic::ObjectChangeRaw,
        TxInfoDataV::MoveCall(_, _, _) => TxInfoNodeStreamTopic::MoveCall,
        TxInfoDataV::Transaction(_) => TxInfoNodeStreamTopic::Transaction,
        TxInfoDataV::Effects(_) => TxInfoNodeStreamTopic::Effects,
        TxInfoDataV::GasCostSummary(_) => TxInfoNodeStreamTopic::GasCostSummary,
    }
}

impl TxInfoData {
    /// Maps an event body to the one event kind it is published under:
    /// pure and total.
    pub fn to_topic(&self) -> (t: TxInfoNodeStreamTopic)
        ensures
            t == spec_to_topic(self.deep_view()),
    {
        match self {
            TxInfoData::String(_) => TxInfoNodeStreamTopic::String,
            TxInfoData::PackagePublish(_) => TxInfoNodeStreamTopic::PackagePublish,
            TxInfoData::ObjectChangeLight(_) => TxInfoNodeStreamTopic::ObjectChangeLight,
            TxInfoData::ObjectChangeRaw(_, _) => TxInfoNodeStreamTopic::ObjectChangeRaw,
            TxInfoData::MoveCall(_, _, _) => TxInfoNodeStreamTopic::MoveCall,
            TxInfoData::Transaction(_) => TxInfoNodeStreamTopic::Transaction,
            TxInfoData::Effects(_) => TxInfoNodeStreamTopic::Effects,
            TxInfoData::GasCostSummary(_) => TxInfoNodeStreamTopic::GasCostSummary,
        }
    }
}

/// The views of a sequence of values, elementwise.
pub open spec fn deep_view_seq<T: DeepView>(s: Seq<T>) -> Seq<T::V> {
    Seq::new(s.len(), |i: int| s[i].deep_view())
}

/// Copies a byte vector.
pub(crate) fn clone_bytes(v: &Vec<u8>) -> (r: Vec<u8>)
    ensures
        r@ == v@,
{
    let mut r: Vec<u8> = Vec::new();
    let mut i: usize = 0;
    while i < v.len()
        invariant
            i <= v.len(),
            r@ =~= v@.subrange(0, i as int),
        decreases v.len() - i,
    {
        r.push(v[i]);
        i = i + 1;
    }
    proof {
        assert(r@ =~= v@);
    }
    r
}

/// Copies one resolved object.
pub(crate) fn clone_object(o: &Object) -> (r: Object)
    ensures
        r.deep_view() == o.deep_view(),
{
    Object {
        id: o.id,
        version: o.version,
        digest: o.digest,
        is_package: o.is_package,
        contents: clone_bytes(&o.contents),
    }
}

} // verus!
