//! The event extraction engine.
//!
//! Given one committed transaction's record, its effects, and the
//! loaded-but-unchanged child objects, the engine classifies every object
//! lifecycle transition, resolves raw object state through the store, and
//! emits the complete event list in this contractual order: one light
//! object-change event per transition (created, mutated, deleted,
//! wrapped, unwrapped, unwrapped-then-deleted, then loaded children),
//! the package-publish side events, one raw object-change event per
//! transition, one gas cost summary, the move calls in call order, one
//! effects echo, and finally one transaction echo.
//!
//! The only failure is a store read fault while resolving a transition:
//! the effects were just committed, so the store must be able to answer,
//! and a fault is an internal inconsistency that aborts the whole
//! extraction rather than producing a partial list.

use vstd::prelude::*;
use crate::data::clone_object;
use crate::data::deep_view_seq;
use crate::data::ChildEntry;
use crate::data::MoveCallRec;
use crate::data::MoveCallV;
use crate::data::NodeStreamPayload;
use crate::data::NodeStreamPayloadV;
use crate::data::ObjectChangeStatus;
use crate::data::ObjectRef;
use crate::data::ObjectV;
use crate::data::OwnedRef;
use crate::data::TransactionData;
use crate::data::TransactionDataV;
use crate::data::TransactionEffects;
use crate::data::TransactionEffectsV;
use crate::data::TxInfoData;
use crate::data::TxInfoDataV;
use crate::data::TxInfoMetadata;
use crate::data::spec_to_topic;
use crate::store::lookup_view;
use crate::store::ObjectStore;
use crate::store::StoreFault;
use crate::topic::TxInfoNodeStreamTopic;

verus! {

/// The fatal failure of extraction: the store could not answer for an
/// object the just-committed effects refer to. Never recovered from;
/// callers must abort the transaction's publication.
#[derive(PartialEq, Eq, Structural, Clone, Copy, Debug)]
pub enum ExtractError {
    StoreInconsistency,
}

/// All lifecycle transitions of one transaction, in the contractual
/// category order, each category in the order the effects report it.
pub open spec fn spec_light_changes(eff: TransactionEffectsV, children: Seq<ChildEntry>) -> Seq<
    ObjectChangeStatus,
> {
    eff.created.map_values(|r: OwnedRef| ObjectChangeStatus::Created(r.reference, r.owner))
        + eff.mutated.map_values(|r: OwnedRef| ObjectChangeStatus::Mutated(r.reference, r.owner))
        + eff.deleted.map_values(|r: ObjectRef| ObjectChangeStatus::Deleted(r))
        + eff.wrapped.map_values(|r: ObjectRef| ObjectChangeStatus::Wrapped(r))
        + eff.unwrapped.map_values(
        |r: OwnedRef| ObjectChangeStatus::Unwrapped(r.reference, r.owner),
    ) + eff.unwrapped_then_deleted.map_values(
        |r: ObjectRef| ObjectChangeStatus::UnwrappedThenDeleted(r),
    ) + children.map_values(|c: ChildEntry| ObjectChangeStatus::LoadedChildObject(c.id, c.version))
}

/// The (object id, version) identity a transition is resolved at.
pub open spec fn spec_change_key(c: ObjectChangeStatus) -> (u64, u64) {
    match c {
        ObjectChangeStatus::Created(r, _) => (r.id, r.version),
        ObjectChangeStatus::Mutated(r, _) => (r.id, r.version),
        ObjectChangeStatus::Deleted(r) => (r.id, r.version),
        ObjectChangeStatus::Wrapped(r) => (r.id, r.version),
        ObjectChangeStatus::Unwrapped(r, _) => (r.id, r.version),
        ObjectChangeStatus::UnwrappedThenDeleted(r) => (r.id, r.version),
        ObjectChangeStatus::LoadedChildObject(id, version) => (id, version),
    }
}

/// What the store answers when the transition is resolved.
pub open spec fn spec_resolve<S: ObjectStore>(s: &S, c: ObjectChangeStatus) -> Result<
    Option<ObjectV>,
    StoreFault,
> {
    s.spec_get(spec_change_key(c).0, spec_change_key(c).1)
}

/// The resolved object state of a transition, absent when the object no
/// longer exists at that version.
pub open spec fn spec_resolution<S: ObjectStore>(s: &S, c: ObjectChangeStatus) -> Option<ObjectV> {
    match spec_resolve(s, c) {
        Ok(o) => o,
        Err(_) => None,
    }
}

/// True when resolving any of the transitions faults.
pub open spec fn spec_any_fault<S: ObjectStore>(s: &S, cs: Seq<ObjectChangeStatus>) -> bool {
    exists|i: int| 0 <= i < cs.len() && spec_resolve(s, cs[i]) is Err
}

/// True when the transition resolves to a published package. Only
/// reference-bearing transitions are checked: a loaded child object is
/// resolved but never checked for package-ness.
pub open spec fn spec_is_package_hit<S: ObjectStore>(s: &S, c: ObjectChangeStatus) -> bool {
    &&& !(c is LoadedChildObject)
    &&& match spec_resolve(s, c) {
        Ok(Some(o)) => o.is_package,
        _ => false,
    }
}

/// The object a package hit resolves to.
pub open spec fn spec_hit_object<S: ObjectStore>(s: &S, c: ObjectChangeStatus) -> ObjectV
    recommends
        spec_is_package_hit(s, c),
{
    match spec_resolve(s, c) {
        Ok(Some(o)) => o,
        _ => arbitrary(),
    }
}

/// The package-publish side events of the given transitions, one per
/// package hit, in transition order.
pub open spec fn spec_package_events<S: ObjectStore>(
    s: &S,
    cs: Seq<ObjectChangeStatus>,
) -> Seq<TxInfoDataV>
    decreases cs.len(),
{
    if cs.len() == 0 {
        Seq::empty()
    } else {
        spec_package_events(s, cs.drop_last()) + (if spec_is_package_hit(s, cs.last()) {
            seq![TxInfoDataV::PackagePublish(spec_hit_object(s, cs.last()))]
        } else {
            Seq::empty()
        })
    }
}

/// The raw object-change events of the given transitions, each carrying
/// the store's answer for its transition.
pub open spec fn spec_raw_events<S: ObjectStore>(s: &S, cs: Seq<ObjectChangeStatus>) -> Seq<
    TxInfoDataV,
> {
    cs.map_values(|c: ObjectChangeStatus| TxInfoDataV::ObjectChangeRaw(c, spec_resolution(s, c)))
}

/// The move-call events of one transaction, in call order.
pub open spec fn spec_move_call_events(calls: Seq<MoveCallV>) -> Seq<TxInfoDataV> {
    calls.map_values(|m: MoveCallV| TxInfoDataV::MoveCall(m.package, m.module, m.function))
}

/// The complete, ordered event list of one committed transaction, or the
/// fatal error when any resolution faults — never a partial list.
pub open spec fn spec_extract<S: ObjectStore>(
    tx: TransactionDataV,
    eff: TransactionEffectsV,
    children: Seq<ChildEntry>,
    s: &S,
) -> Result<Seq<TxInfoDataV>, ExtractError> {
    let lights = spec_light_changes(eff, children);
    if spec_any_fault(s, lights) {
        Err(ExtractError::StoreInconsistency)
    } else {
        Ok(
            lights.map_values(|c: ObjectChangeStatus| TxInfoDataV::ObjectChangeLight(c))
                + spec_package_events(s, lights) + spec_raw_events(s, lights) + seq![
                TxInfoDataV::GasCostSummary(eff.gas),
            ] + spec_move_call_events(tx.move_calls) + seq![
                TxInfoDataV::Effects(eff),
                TxInfoDataV::Transaction(tx),
            ],
        )
    }
}

/// The loaded-child-objects map is keyed by object id: ids strictly
/// ascending, hence unique.
pub open spec fn spec_children_sorted(cs: Seq<ChildEntry>) -> bool {
    forall|i: int, j: int| 0 <= i < j < cs.len() ==> cs[i].id < cs[j].id
}

fn change_key(c: &ObjectChangeStatus) -> (k: (u64, u64))
    ensures
        k == spec_change_key(*c),
{
    match c {
        ObjectChangeStatus::Created(r, _) => (r.id, r.version),
        ObjectChangeStatus::Mutated(r, _) => (r.id, r.version),
        ObjectChangeStatus::Deleted(r) => (r.id, r.version),
        ObjectChangeStatus::Wrapped(r) => (r.id, r.version),
        ObjectChangeStatus::Unwrapped(r, _) => (r.id, r.version),
        ObjectChangeStatus::UnwrappedThenDeleted(r) => (r.id, r.version),
        ObjectChangeStatus::LoadedChildObject(id, version) => (*id, *version),
    }
}

/// Copies a vector of plain values.
fn clone_copy_vec<T: Copy>(v: &Vec<T>) -> (r: Vec<T>)
    ensures
        r@ == v@,
{
    let mut r: Vec<T> = Vec::new();
    let mut i: usize = 0;
    while i < v.len()
        invariant
            i <= v.len(),
            r@ =~= v@.subrange(0, i as int),
        decreases v.len() - i,
    {
        r.push(v[i]);
        i = i + 1;
    }
    proof {
        assert(r@ =~= v@);
    }
    r
}

/// Copies one transaction record.
#[verifier::loop_isolation(false)]
pub(crate) fn clone_transaction(t: &TransactionData) -> (r: TransactionData)
    ensures
        r.deep_view() == t.deep_view(),
{
    let mut calls: Vec<MoveCallRec> = Vec::new();
    let mut i: usize = 0;
    while i < t.move_calls.len()
        invariant
            i <= t.move_calls.len(),
            calls@.len() == i,
            forall|j: int|
                0 <= j < i ==> (#[trigger] calls@[j]).deep_view() == t.move_calls@[j].deep_view(),
        decreases t.move_calls.len() - i,
    {
        let m = &t.move_calls[i];
        calls.push(
            MoveCallRec {
                package: m.package,
                module: m.module.clone(),
                function: m.function.clone(),
            },
        );
        i = i + 1;
    }
    let r = TransactionData { sender: t.sender, move_calls: calls };
    proof {
        assert(r.deep_view().move_calls =~~= t.deep_view().move_calls);
        assert(r.deep_view() =~~= t.deep_view());
    }
    r
}

/// Copies one effects record.
pub(crate) fn clone_effects(e: &TransactionEffects) -> (r: TransactionEffects)
    ensures
        r.deep_view() == e.deep_view(),
{
    let r = TransactionEffects {
        created: clone_copy_vec(&e.created),
        mutated: clone_copy_vec(&e.mutated),
        deleted: clone_copy_vec(&e.deleted),
        wrapped: clone_copy_vec(&e.wrapped),
        unwrapped: clone_copy_vec(&e.unwrapped),
        unwrapped_then_deleted: clone_copy_vec(&e.unwrapped_then_deleted),
        gas: e.gas,
    };
    proof {
        assert(r.deep_view() =~~= e.deep_view());
    }
    r
}

proof fn lemma_package_step_nohit<S: ObjectStore>(
    s: &S,
    lights: Seq<ObjectChangeStatus>,
    i: int,
    pkgs: Seq<TxInfoData>,
)
    requires
        0 <= i < lights.len(),
        !spec_is_package_hit(s, lights[i]),
        deep_view_seq(pkgs) == spec_package_events(s, lights.subrange(0, i)),
    ensures
        deep_view_seq(pkgs) == spec_package_events(s, lights.subrange(0, i + 1)),
{
    assert(lights.subrange(0, i + 1).drop_last() =~= lights.subrange(0, i));
    assert(lights.subrange(0, i + 1).last() == lights[i]);
    assert(spec_package_events(s, lights.subrange(0, i + 1)) =~= spec_package_events(
        s,
        lights.subrange(0, i),
    ));
}

proof fn lemma_package_step_hit<S: ObjectStore>(
    s: &S,
    lights: Seq<ObjectChangeStatus>,
    i: int,
    prev: Seq<TxInfoData>,
    elem: TxInfoData,
)
    requires
        0 <= i < lights.len(),
        spec_is_package_hit(s, lights[i]),
        elem.deep_view() == TxInfoDataV::PackagePublish(spec_hit_object(s, lights[i])),
        deep_view_seq(prev) == spec_package_events(s, lights.subrange(0, i)),
    ensures
        deep_view_seq(prev.push(elem)) == spec_package_events(s, lights.subrange(0, i + 1)),
{
    assert(lights.subrange(0, i + 1).drop_last() =~= lights.subrange(0, i));
    assert(lights.subrange(0, i + 1).last() == lights[i]);
    let target = spec_package_events(s, lights.subrange(0, i + 1));
    assert(target == spec_package_events(s, lights.subrange(0, i)) + seq![
        TxInfoDataV::PackagePublish(spec_hit_object(s, lights[i])),
    ]);
    assert(deep_view_seq(prev).len() == prev.len());
    assert forall|j: int| 0 <= j < prev.len() + 1 implies deep_view_seq(prev.push(elem))[j]
        == target[j] by {
        assert(deep_view_seq(prev.push(elem))[j] == prev.push(elem)[j].deep_view());
        if j < prev.len() {
            assert(prev.push(elem)[j] == prev[j]);
            assert(deep_view_seq(prev)[j] == prev[j].deep_view());
        } else {
            assert(prev.push(elem)[j] == elem);
        }
    }
    assert(deep_view_seq(prev.push(elem)) =~~= target);
}

impl TxInfoData {
    /// Derives the complete, ordered list of event bodies of one
    /// committed transaction: exactly `spec_extract` of the inputs, or
    /// the fatal store-inconsistency error with no partial output.
    #[verifier::loop_isolation(false)]
    #[verifier::rlimit(60)]
    pub fn from_post_exec<S: ObjectStore>(
        cert: &TransactionData,
        effects: TransactionEffects,
        loaded_child_objects: &Vec<ChildEntry>,
        store: &S,
    ) -> (r: Result<Vec<TxInfoData>, ExtractError>)
        requires
            spec_children_sorted(loaded_child_objects@),
        ensures
            ({
                let se = spec_extract(
                    cert.deep_view(),
                    effects.deep_view(),
                    loaded_child_objects@,
                    store,
                );
                match r {
                    Ok(v) => se matches Ok(evs) && v.deep_view() == evs,
                    Err(e) => se matches Err(e2) && e == e2,
                }
            }),
    {
        let ghost effv = effects.deep_view();
        let ghost certv = cert.deep_view();
        let ghost lights = spec_light_changes(effv, loaded_child_objects@);

        let mut changes: Vec<ObjectChangeStatus> = Vec::new();
        let mut i: usize = 0;
        while i < effects.created.len()
            invariant
                i <= effects.created.len(),
                changes@ =~~= effv.created.subrange(0, i as int).map_values(
                    |r: OwnedRef| ObjectChangeStatus::Created(r.reference, r.owner),
                ),
            decreases effects.created.len() - i,
        {
            let r = effects.created[i];
            changes.push(ObjectChangeStatus::Created(r.reference, r.owner));
            i = i + 1;
            proof {
                assert(changes@ =~~= effv.created.subrange(0, i as int).map_values(
                    |r: OwnedRef| ObjectChangeStatus::Created(r.reference, r.owner),
                ));
            }
        }
        let ghost seg1 = changes@;
        let mut i: usize = 0;
        while i < effects.mutated.len()
            invariant
                i <= effects.mutated.len(),
                changes@ =~~= seg1 + effv.mutated.subrange(0, i as int).map_values(
                    |r: OwnedRef| ObjectChangeStatus::Mutated(r.reference, r.owner),
                ),
            decreases effects.mutated.len() - i,
        {
            let r = effects.mutated[i];
            changes.push(ObjectChangeStatus::Mutated(r.reference, r.owner));
            i = i + 1;
            proof {
                assert(changes@ =~~= seg1 + effv.mutated.subrange(0, i as int).map_values(
                    |r: OwnedRef| ObjectChangeStatus::Mutated(r.reference, r.owner),
                ));
            }
        }
        let ghost seg2 = changes@;
        let mut i: usize = 0;
        while i < effects.deleted.len()
            invariant
                i <= effects.deleted.len(),
                changes@ =~~= seg2 + effv.deleted.subrange(0, i as int).map_values(
                    |r: ObjectRef| ObjectChangeStatus::Deleted(r),
                ),
            decreases effects.deleted.len() - i,
        {
            let r = effects.deleted[i];
            changes.push(ObjectChangeStatus::Deleted(r));
            i = i + 1;
            proof {
                assert(changes@ =~~= seg2 + effv.deleted.subrange(0, i as int).map_values(
                    |r: ObjectRef| ObjectChangeStatus::Deleted(r),
                ));
            }
        }
        let ghost seg3 = changes@;
        let mut i: usize = 0;
        while i < effects.wrapped.len()
            invariant
                i <= effects.wrapped.len(),
                changes@ =~~= seg3 + effv.wrapped.subrange(0, i as int).map_values(
                    |r: ObjectRef| ObjectChangeStatus::Wrapped(r),
                ),
            decreases effects.wrapped.len() - i,
        {
            let r = effects.wrapped[i];
            changes.push(ObjectChangeStatus::Wrapped(r));
            i = i + 1;
            proof {
                assert(changes@ =~~= seg3 + effv.wrapped.subrange(0, i as int).map_values(
                    |r: ObjectRef| ObjectChangeStatus::Wrapped(r),
                ));
            }
        }
        let ghost seg4 = changes@;
        let mut i: usize = 0;
        while i < effects.unwrapped.len()
            invariant
                i <= effects.unwrapped.len(),
                changes@ =~~= seg4 + effv.unwrapped.subrange(0, i as int).map_values(
                    |r: OwnedRef| ObjectChangeStatus::Unwrapped(r.reference, r.owner),
                ),
            decreases effects.unwrapped.len() - i,
        {
            let r = effects.unwrapped[i];
            changes.push(ObjectChangeStatus::Unwrapped(r.reference, r.owner));
            i = i + 1;
            proof {
                assert(changes@ =~~= seg4 + effv.unwrapped.subrange(0, i as int).map_values(
                    |r: OwnedRef| ObjectChangeStatus::Unwrapped(r.reference, r.owner),
                ));
            }
        }
        let ghost seg5 = changes@;
        let mut i: usize = 0;
        while i < effects.unwrapped_then_deleted.len()
            invariant
                i <= effects.unwrapped_then_deleted.len(),
                changes@ =~~= seg5 + effv.unwrapped_then_deleted.subrange(0, i as int).map_values(
                    |r: ObjectRef| ObjectChangeStatus::UnwrappedThenDeleted(r),
                ),
            decreases effects.unwrapped_then_deleted.len() - i,
        {
            let r = effects.unwrapped_then_deleted[i];
            changes.push(ObjectChangeStatus::UnwrappedThenDeleted(r));
            i = i + 1;
            proof {
                assert(changes@ =~~= seg5 + effv.unwrapped_then_deleted.subrange(
                    0,
                    i as int,
                ).map_values(|r: ObjectRef| ObjectChangeStatus::UnwrappedThenDeleted(r)));
            }
        }
        let ghost seg6 = changes@;
        let mut i: usize = 0;
        while i < loaded_child_objects.len()
            invariant
                i <= loaded_child_objects.len(),
                changes@ =~~= seg6 + loaded_child_objects@.subrange(0, i as int).map_values(
                    |c: ChildEntry| ObjectChangeStatus::LoadedChildObject(c.id, c.version),
                ),
            decreases loaded_child_objects.len() - i,
        {
            let c = loaded_child_objects[i];
            changes.push(ObjectChangeStatus::LoadedChildObject(c.id, c.version));
            i = i + 1;
            proof {
                assert(changes@ =~~= seg6 + loaded_child_objects@.subrange(0, i as int).map_values(
                    |c: ChildEntry| ObjectChangeStatus::LoadedChildObject(c.id, c.version),
                ));
            }
        }
        proof {
            assert(changes@ =~~= lights);
        }

        // Resolve every transition; collect package side events and raw
        // events. A store fault aborts with no partial output.
        let mut packages: Vec<TxInfoData> = Vec::new();
        let mut raws: Vec<TxInfoData> = Vec::new();
        let mut i: usize = 0;
        while i < changes.len()
            invariant
                i <= changes.len(),
                forall|j: int| 0 <= j < i ==> !((#[trigger] spec_resolve(store, lights[j])) is Err),
                deep_view_seq(packages@) == spec_package_events(
                    store,
                    lights.subrange(0, i as int),
                ),
                raws@.len() == i,
                forall|j: int|
                    0 <= j < i ==> (#[trigger] raws@[j]).deep_view()
                        == TxInfoDataV::ObjectChangeRaw(
                        lights[j],
                        spec_resolution(store, lights[j]),
                    ),
            decreases changes.len() - i,
        {
            let c = changes[i];
            let key = change_key(&c);
            proof {
                assert(c == lights[i as int]);
            }
            match store.get_object_by_key(key.0, key.1) {
                Err(_) => {
                    proof {
                        assert(spec_resolve(store, lights[i as int]) is Err);
                        assert(spec_any_fault(store, lights));
                    }
                    return Err(ExtractError::StoreInconsistency);
                },
                Ok(opt) => {
                    proof {
                        assert(lookup_view(Ok(opt)) == spec_resolve(store, lights[i as int]));
                    }
                    let is_child = match c {
                        ObjectChangeStatus::LoadedChildObject(_, _) => true,
                        _ => false,
                    };
                    if !is_child {
                        if let Some(o) = &opt {
                            if o.is_package {
                                let pkg = TxInfoData::PackagePublish(clone_object(o));
                                proof {
                                    assert(spec_is_package_hit(store, lights[i as int]));
                                    assert(pkg.deep_view() == TxInfoDataV::PackagePublish(
                                        spec_hit_object(store, lights[i as int]),
                                    ));
                                    lemma_package_step_hit(
                                        store,
                                        lights,
                                        i as int,
                                        packages@,
                                        pkg,
                                    );
                                }
                                packages.push(pkg);
                            } else {
                                proof {
                                    lemma_package_step_nohit(store, lights, i as int, packages@);
                                }
                            }
                        } else {
                            proof {
                                lemma_package_step_nohit(store, lights, i as int, packages@);
                            }
                        }
                    } else {
                        proof {
                            lemma_package_step_nohit(store, lights, i as int, packages@);
                        }
                    }
                    proof {
                        assert(opt.deep_view() == spec_resolution(store, lights[i as int]));
                    }
                    raws.push(TxInfoData::ObjectChangeRaw(c, opt));
                    i = i + 1;
                },
            }
        }
        proof {
            assert(lights.subrange(0, lights.len() as int) =~= lights);
            assert(!spec_any_fault(store, lights));
        }
        let ghost pkgs_seq = packages@;
        let ghost raws_seq = raws@;

        // Assemble the list in the contractual emission order.
        let mut out: Vec<TxInfoData> = Vec::new();
        let mut i: usize = 0;
        while i < changes.len()
            invariant
                i <= changes.len(),
                out@.len() == i,
                forall|j: int|
                    0 <= j < i ==> (#[trigger] out@[j]).deep_view()
                        == TxInfoDataV::ObjectChangeLight(lights[j]),
            decreases changes.len() - i,
        {
            out.push(TxInfoData::ObjectChangeLight(changes[i]));
            i = i + 1;
        }
        let ghost lights_out = out@;
        out.append(&mut packages);
        out.append(&mut raws);
        out.push(TxInfoData::GasCostSummary(effects.gas));
        let ghost base_snap = out@;
        let mut i: usize = 0;
        while i < cert.move_calls.len()
            invariant
                i <= cert.move_calls.len(),
                out@.len() == base_snap.len() + i,
                forall|j: int| 0 <= j < base_snap.len() ==> out@[j] == base_snap[j],
                forall|j: int|
                    0 <= j < i ==> (#[trigger] out@[base_snap.len() + j]).deep_view()
                        == TxInfoDataV::MoveCall(
                        certv.move_calls[j].package,
                        certv.move_calls[j].module,
                        certv.move_calls[j].function,
                    ),
            decreases cert.move_calls.len() - i,
        {
            let m = &cert.move_calls[i];
            out.push(TxInfoData::MoveCall(m.package, m.module.clone(), m.function.clone()));
            i = i + 1;
        }
        let ghost moves_done = out@;
        out.push(TxInfoData::Effects(effects));
        out.push(TxInfoData::Transaction(clone_transaction(cert)));

        proof {
            let light_events = lights.map_values(
                |c: ObjectChangeStatus| TxInfoDataV::ObjectChangeLight(c),
            );
            let pkg_events = spec_package_events(store, lights);
            let raw_events = spec_raw_events(store, lights);
            let mc_events = spec_move_call_events(certv.move_calls);
            let target = light_events + pkg_events + raw_events + seq![
                TxInfoDataV::GasCostSummary(effv.gas),
            ] + mc_events + seq![TxInfoDataV::Effects(effv), TxInfoDataV::Transaction(certv)];
            let ln = lights.len() as int;
            let pn = pkgs_seq.len() as int;
            let mn = certv.move_calls.len() as int;
            assert(deep_view_seq(pkgs_seq).len() == pn);
            assert(pkg_events.len() == pn);
            assert(base_snap.len() == ln + pn + ln + 1);
            assert(out@.len() == ln + pn + ln + 1 + mn + 2);
            assert(target.len() == out@.len());
            assert forall|j: int| 0 <= j < out@.len() implies (#[trigger] out@[j]).deep_view()
                == target[j] by {
                if j < base_snap.len() + mn {
                    assert(out@[j] == moves_done[j]);
                }
                if j < ln {
                    assert(out@[j] == lights_out[j]);
                    assert(target[j] == TxInfoDataV::ObjectChangeLight(lights[j]));
                } else if j < ln + pn {
                    assert(base_snap[j] == pkgs_seq[j - ln]);
                    assert(deep_view_seq(pkgs_seq)[j - ln] == pkgs_seq[j - ln].deep_view());
                    assert(target[j] == pkg_events[j - ln]);
                } else if j < ln + pn + ln {
                    assert(base_snap[j] == raws_seq[j - ln - pn]);
                    assert(target[j] == raw_events[j - ln - pn]);
                } else if j == ln + pn + ln {
                    assert(base_snap[j] == TxInfoData::GasCostSummary(effv.gas));
                    assert(target[j] == TxInfoDataV::GasCostSummary(effv.gas));
                } else if j < ln + pn + ln + 1 + mn {
                    assert(out@[j] == moves_done[base_snap.len() + (j - base_snap.len())]);
                    assert(target[j] == mc_events[j - base_snap.len()]);
                } else if j == ln + pn + ln + 1 + mn {
                    assert(target[j] == TxInfoDataV::Effects(effv));
                } else {
                    assert(target[j] == TxInfoDataV::Transaction(certv));
                }
            }
            assert(out.deep_view() =~~= target);
        }
        Ok(out)
    }
}

/// Derives the publishable payload list of one committed transaction:
/// every event body wrapped with the one metadata record of the
/// transaction and tagged with the kind it is published under, in the
/// engine's contractual order; or the fatal store-inconsistency error
/// with no partial output.
#[verifier::loop_isolation(false)]
pub fn from_post_exec<S: ObjectStore>(
    message_process_timestamp_ms: u64,
    checkpoint_id: u64,
    sender: u64,
    tx_digest: u64,
    cert: &TransactionData,
    effects: &TransactionEffects,
    loaded_child_objects: &Vec<ChildEntry>,
    store: &S,
) -> (r: Result<Vec<(NodeStreamPayload, TxInfoNodeStreamTopic)>, ExtractError>)
    requires
        spec_children_sorted(loaded_child_objects@),
    ensures
        ({
            let meta = TxInfoMetadata {
                message_process_timestamp_ms,
                checkpoint_id,
                sender,
                tx_digest,
            };
            let se = spec_extract(
                cert.deep_view(),
                effects.deep_view(),
                loaded_child_objects@,
                store,
            );
            match r {
                Ok(v) => se matches Ok(evs) && {
                    &&& v@.len() == evs.len()
                    &&& forall|i: int|
                        0 <= i < evs.len() ==> (#[trigger] v@[i]).0.deep_view()
                            == (NodeStreamPayloadV { metadata: meta, data: evs[i] })
                    &&& forall|i: int|
                        0 <= i < evs.len() ==> (#[trigger] v@[i]).1 == spec_to_topic(evs[i])
                },
                Err(e) => se matches Err(e2) && e == e2,
            }
        }),
{
    let effects_copy = clone_effects(effects);
    let mut data = match TxInfoData::from_post_exec(
        cert,
        effects_copy,
        loaded_child_objects,
        store,
    ) {
        Ok(d) => d,
        Err(e) => {
            return Err(e);
        },
    };
    let metadata = TxInfoMetadata { message_process_timestamp_ms, checkpoint_id, sender, tx_digest };
    let ghost evs = data.deep_view();
    proof {
        assert(evs =~~= deep_view_seq(data@));
    }
    let mut out: Vec<(NodeStreamPayload, TxInfoNodeStreamTopic)> = Vec::new();
    while data.len() > 0
        invariant
            out@.len() + data@.len() == evs.len(),
            deep_view_seq(data@) == evs.skip(out@.len() as int),
            forall|i: int|
                0 <= i < out@.len() ==> (#[trigger] out@[i]).0.deep_view() == (NodeStreamPayloadV {
                    metadata,
                    data: evs[i],
                }),
            forall|i: int| 0 <= i < out@.len() ==> (#[trigger] out@[i]).1 == spec_to_topic(evs[i]),
        decreases data@.len(),
    {
        let ghost n = out@.len() as int;
        let ghost data_prev = data@;
        proof {
            assert(deep_view_seq(data_prev)[0] == data_prev[0].deep_view());
            assert(data_prev[0].deep_view() == evs[n]);
        }
        let d = data.remove(0);
        proof {
            assert(d.deep_view() == evs[n]);
            assert forall|j: int| 0 <= j < data@.len() implies deep_view_seq(data@)[j] == evs.skip(
                n + 1,
            )[j] by {
                assert(deep_view_seq(data@)[j] == data@[j].deep_view());
                assert(data@[j] == data_prev[j + 1]);
                assert(deep_view_seq(data_prev)[j + 1] == data_prev[j + 1].deep_view());
            }
            assert(deep_view_seq(data@) =~~= evs.skip(n + 1));
        }
        let topic = d.to_topic();
        out.push((NodeStreamPayload { metadata, data: d }, topic));
    }
    Ok(out)
}

/// Law: extraction is deterministic. One store value answers every
/// identity one way, so two extractions of identical inputs produce the
/// same event list — and, the codec being a function of the payload,
/// byte-identical encodings.
pub proof fn lemma_extract_deterministic<S: ObjectStore>(
    tx: TransactionDataV,
    eff: TransactionEffectsV,
    children: Seq<ChildEntry>,
    s: &S,
    r1: Result<Seq<TxInfoDataV>, ExtractError>,
    r2: Result<Seq<TxInfoDataV>, ExtractError>,
)
    requires
        r1 == spec_extract(tx, eff, children, s),
        r2 == spec_extract(tx, eff, children, s),
    ensures
        r1 == r2,
{
}


/// Law: emission order. Whenever extraction succeeds, the list is the
/// light object-change events in transition order, then the
/// package-publish side events, then the raw object-change events in the
/// same relative order, then exactly one gas cost summary, then the move
/// calls in call order, then exactly one effects echo, and the
/// transaction echo as the final element.
pub proof fn lemma_emission_order<S: ObjectStore>(
    tx: TransactionDataV,
    eff: TransactionEffectsV,
    children: Seq<ChildEntry>,
    s: &S,
)
    requires
        spec_extract(tx, eff, children, s) is Ok,
    ensures
        ({
            let lights = spec_light_changes(eff, children);
            let pkgs = spec_package_events(s, lights);
            let ln = lights.len() as int;
            let pn = pkgs.len() as int;
            let mn = tx.move_calls.len() as int;
            let evs = match spec_extract(tx, eff, children, s) {
                Ok(evs) => evs,
                Err(_) => arbitrary(),
            };
            &&& evs.len() == 2 * ln + pn + mn + 3
            &&& forall|i: int|
                0 <= i < ln ==> evs[i] == TxInfoDataV::ObjectChangeLight(#[trigger] lights[i])
            &&& forall|i: int| 0 <= i < pn ==> evs[ln + i] == #[trigger] pkgs[i]
            &&& forall|i: int|
                0 <= i < ln ==> evs[ln + pn + i] == TxInfoDataV::ObjectChangeRaw(
                    #[trigger] lights[i],
                    spec_resolution(s, lights[i]),
                )
            &&& evs[2 * ln + pn] == TxInfoDataV::GasCostSummary(eff.gas)
            &&& forall|i: int|
                0 <= i < mn ==> evs[2 * ln + pn + 1 + i] == TxInfoDataV::MoveCall(
                    (#[trigger] tx.move_calls[i]).package,
                    tx.move_calls[i].module,
                    tx.move_calls[i].function,
                )
            &&& evs[2 * ln + pn + mn + 1] == TxInfoDataV::Effects(eff)
            &&& evs[evs.len() - 1] == TxInfoDataV::Transaction(tx)
        }),
{
}

/// Law: resolution presence and absence. In the extracted list, the raw
/// object-change event of transition `i` stands right after the light
/// block and the package side events, in the same relative order, and
/// carries exactly the store's answer for that transition: `None` when
/// no object exists at that version (a deleted object), the stored state
/// otherwise.
pub proof fn lemma_raw_resolution<S: ObjectStore>(
    tx: TransactionDataV,
    eff: TransactionEffectsV,
    children: Seq<ChildEntry>,
    s: &S,
    i: int,
)
    requires
        spec_extract(tx, eff, children, s) is Ok,
        0 <= i < spec_light_changes(eff, children).len(),
    ensures
        ({
            let lights = spec_light_changes(eff, children);
            let evs = match spec_extract(tx, eff, children, s) {
                Ok(evs) => evs,
                Err(_) => arbitrary(),
            };
            evs[lights.len() + spec_package_events(s, lights).len() + i]
                == TxInfoDataV::ObjectChangeRaw(lights[i], spec_resolution(s, lights[i]))
        }),
{
    let lights = spec_light_changes(eff, children);
    let ln = lights.len() as int;
    let pn = spec_package_events(s, lights).len() as int;
    let evs = match spec_extract(tx, eff, children, s) {
        Ok(evs) => evs,
        Err(_) => arbitrary(),
    };
    assert(evs[ln + pn + i] == spec_raw_events(s, lights)[i]);
}

/// How many package-publish events a list holds.
pub open spec fn spec_count_publish(evs: Seq<TxInfoDataV>) -> nat
    decreases evs.len(),
{
    if evs.len() == 0 {
        0
    } else {
        spec_count_publish(evs.drop_last()) + (if evs.last() is PackagePublish {
            1nat
        } else {
            0nat
        })
    }
}

/// How many transitions resolve to a published package.
pub open spec fn spec_count_package_hits<S: ObjectStore>(
    s: &S,
    cs: Seq<ObjectChangeStatus>,
) -> nat
    decreases cs.len(),
{
    if cs.len() == 0 {
        0
    } else {
        spec_count_package_hits(s, cs.drop_last()) + (if spec_is_package_hit(s, cs.last()) {
            1nat
        } else {
            0nat
        })
    }
}

proof fn lemma_count_publish_concat(a: Seq<TxInfoDataV>, b: Seq<TxInfoDataV>)
    ensures
        spec_count_publish(a + b) == spec_count_publish(a) + spec_count_publish(b),
    decreases b.len(),
{
    if b.len() == 0 {
        assert(a + b =~= a);
    } else {
        assert((a + b).drop_last() =~= a + b.drop_last());
        assert((a + b).last() == b.last());
        lemma_count_publish_concat(a, b.drop_last());
    }
}

proof fn lemma_count_publish_none(evs: Seq<TxInfoDataV>)
    requires
        forall|i: int| 0 <= i < evs.len() ==> !((#[trigger] evs[i]) is PackagePublish),
    ensures
        spec_count_publish(evs) == 0,
    decreases evs.len(),
{
    if evs.len() > 0 {
        lemma_count_publish_none(evs.drop_last());
    }
}

proof fn lemma_count_package_events<S: ObjectStore>(s: &S, cs: Seq<ObjectChangeStatus>)
    ensures
        spec_count_publish(spec_package_events(s, cs)) == spec_count_package_hits(s, cs),
    decreases cs.len(),
{
    if cs.len() > 0 {
        lemma_count_package_events(s, cs.drop_last());
        if spec_is_package_hit(s, cs.last()) {
            let single = seq![TxInfoDataV::PackagePublish(spec_hit_object(s, cs.last()))];
            lemma_count_publish_concat(spec_package_events(s, cs.drop_last()), single);
            assert(single.drop_last() =~= Seq::<TxInfoDataV>::empty());
            assert(spec_count_publish(Seq::<TxInfoDataV>::empty()) == 0);
            assert(single.last() is PackagePublish);
            assert(spec_count_publish(single) == 1);
        } else {
            lemma_count_publish_concat(
                spec_package_events(s, cs.drop_last()),
                Seq::<TxInfoDataV>::empty(),
            );
        }
    }
}

/// Law: package detection. The extracted list holds exactly one
/// package-publish event per transition whose object resolves to a
/// published package — one extra event beside that transition's light
/// and raw pair, and none from any other source.
pub proof fn lemma_package_detection<S: ObjectStore>(
    tx: TransactionDataV,
    eff: TransactionEffectsV,
    children: Seq<ChildEntry>,
    s: &S,
)
    ensures
        match spec_extract(tx, eff, children, s) {
            Ok(evs) => spec_count_publish(evs) == spec_count_package_hits(
                s,
                spec_light_changes(eff, children),
            ),
            Err(_) => true,
        },
{
    let lights = spec_light_changes(eff, children);
    if !spec_any_fault(s, lights) {
        let a = lights.map_values(|c: ObjectChangeStatus| TxInfoDataV::ObjectChangeLight(c));
        let b = spec_package_events(s, lights);
        let c = spec_raw_events(s, lights);
        let d = seq![TxInfoDataV::GasCostSummary(eff.gas)];
        let e = spec_move_call_events(tx.move_calls);
        let f = seq![TxInfoDataV::Effects(eff), TxInfoDataV::Transaction(tx)];
        lemma_count_publish_concat(a + b + c + d + e, f);
        lemma_count_publish_concat(a + b + c + d, e);
        lemma_count_publish_concat(a + b + c, d);
        lemma_count_publish_concat(a + b, c);
        lemma_count_publish_concat(a, b);
        lemma_count_publish_none(a);
        lemma_count_publish_none(c);
        lemma_count_publish_none(d);
        lemma_count_publish_none(e);
        lemma_count_publish_none(f);
        lemma_count_package_events(s, lights);
    }
}

} // verus!
