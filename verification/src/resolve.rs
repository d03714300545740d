//! The per-field resolution protocol for entity references in messages.
//!
//! A message type declares, for each entity-carrying field, a
//! [`MissingPolicy`] saying what to do when the reference cannot be
//! resolved.  Two directional transforms are derived from those policies:
//!
//! * [`entity_to_network`] rewrites local handles to wire identifiers
//!   before a message is serialized and sent;
//! * [`network_to_entity`] rewrites wire identifiers back to local handles
//!   after a message is received and deserialized.
//!
//! Both return `false` — and the caller discards the message — exactly
//! when a Drop-policy field fails to resolve.  Within one message, Drop
//! fields are resolved before Create fields, before Ignore fields, so that
//! an unresolvable Drop field aborts the message before any object is
//! created or identifier generated on its behalf.

use vstd::prelude::*;
use crate::Entity;
use crate::network_id::{NetworkId, NetworkIdMap};
use crate::simulation::Simulation;

verus! {

/// What to do with an entity-carrying field whose reference cannot be
/// resolved.
#[derive(Clone, Copy, PartialEq, Eq, Debug, Structural)]
pub enum MissingPolicy {
    /// Discard the whole message.
    Drop,
    /// Synthesize the missing object (inbound) or a fresh identifier
    /// (outbound) and resolve to it.
    Create,
    /// Resolve on a best-effort basis; an unresolvable reference becomes
    /// empty and never blocks delivery.
    Ignore,
}

/// The value of an entity-carrying field: a local handle before sending
/// and after inbound resolution, a wire identifier on the wire, or empty
/// (only for optional, Ignore-policy fields).
#[derive(Clone, Copy, PartialEq, Eq, Debug, Structural)]
pub enum EntityRef {
    Local { entity: Entity },
    Wire { id: NetworkId },
    Empty,
}

/// One entity-carrying field of a message: its declared policy and its
/// current value.
#[derive(Clone, Copy, PartialEq, Eq, Debug, Structural)]
pub struct EntityField {
    pub policy: MissingPolicy,
    pub value: EntityRef,
}

/// Outbound message form: every field holds a local handle, except that an
/// optional Ignore field may be empty.
pub open spec fn outbound_form(fields: Seq<EntityField>) -> bool {
    forall|j: int|
        #![trigger fields[j]]
        0 <= j < fields.len() ==> (fields[j].value is Local || (fields[j].policy is Ignore
            && fields[j].value is Empty))
}

/// Wire message form: every field holds a wire identifier, except that an
/// optional Ignore field may be empty.
pub open spec fn wire_form(fields: Seq<EntityField>) -> bool {
    forall|j: int|
        #![trigger fields[j]]
        0 <= j < fields.len() ==> (fields[j].value is Wire || (fields[j].policy is Ignore
            && fields[j].value is Empty))
}

/// Every Drop-policy field's local handle is registered in `fwd`.
pub open spec fn drops_resolve_out(fields: Seq<EntityField>, fwd: Map<u64, u32>) -> bool {
    forall|j: int|
        #![trigger fields[j]]
        0 <= j < fields.len() && fields[j].policy is Drop && fields[j].value is Local
            ==> fwd.contains_key(fields[j].value->entity.0)
}

/// Every Drop-policy field's wire identifier is registered in `rev`.
pub open spec fn drops_resolve_in(fields: Seq<EntityField>, rev: Map<u32, u64>) -> bool {
    forall|j: int|
        #![trigger fields[j]]
        0 <= j < fields.len() && fields[j].policy is Drop && fields[j].value is Wire
            ==> rev.contains_key(fields[j].value->id.0)
}

/// Every Create-policy field's wire identifier is already registered in
/// `rev`, so inbound resolution has nothing to synthesize.
pub open spec fn creates_known(fields: Seq<EntityField>, rev: Map<u32, u64>) -> bool {
    forall|j: int|
        #![trigger fields[j]]
        0 <= j < fields.len() && fields[j].policy is Create && fields[j].value is Wire
            ==> rev.contains_key(fields[j].value->id.0)
}

/// The local handles held by Create-policy fields.
pub open spec fn create_handles(fields: Seq<EntityField>) -> Set<u64> {
    Set::new(
        |e: u64|
            exists|j: int|
                0 <= j < fields.len() && (#[trigger] fields[j]).policy is Create
                    && fields[j].value == (EntityRef::Local { entity: Entity(e) }),
    )
}

/// The wire identifiers held by Create-policy fields.
pub open spec fn create_ids(fields: Seq<EntityField>) -> Set<u32> {
    Set::new(
        |i: u32|
            exists|j: int|
                0 <= j < fields.len() && (#[trigger] fields[j]).policy is Create
                    && fields[j].value == (EntityRef::Wire { id: NetworkId(i) }),
    )
}

/// Every Drop-policy field's local handle lies in `keys` — the forward
/// map's key set at the moment the message is processed decides, and
/// only decides, whether the message is sent.
pub open spec fn drops_resolve_keys(fields: Seq<EntityField>, keys: Set<u64>) -> bool {
    forall|j: int|
        #![trigger fields[j]]
        0 <= j < fields.len() && fields[j].policy is Drop && fields[j].value is Local
            ==> keys.contains(fields[j].value->entity.0)
}

/// The forward map's key set after one message of the outbound drain:
/// unchanged when the message is dropped, grown by the Create-policy
/// handles when it is sent.
pub open spec fn keys_after_msg(fields: Seq<EntityField>, keys: Set<u64>) -> Set<u64> {
    if drops_resolve_keys(fields, keys) {
        keys.union(create_handles(fields))
    } else {
        keys
    }
}

/// How one field is rewritten by successful outbound resolution.  `fwd0`
/// and `rev0` are the map's two directions before the call and `fwd1` the
/// forward direction after it (Create fields may have grown the map).
pub open spec fn out_resolved(
    f: EntityField,
    g: EntityField,
    fwd0: Map<u64, u32>,
    rev0: Map<u32, u64>,
    fwd1: Map<u64, u32>,
) -> bool {
    &&& g.policy == f.policy
    &&& (f.policy is Drop ==> f.value is Local && fwd0.contains_key(f.value->entity.0)
        && g.value == (EntityRef::Wire { id: NetworkId(fwd0[f.value->entity.0]) }))
    &&& (f.policy is Create ==> f.value is Local && g.value is Wire && fwd1.contains_pair(
        f.value->entity.0,
        g.value->id.0,
    ) && (fwd0.contains_key(f.value->entity.0) ==> g.value->id.0 == fwd0[f.value->entity.0]) && (
    !fwd0.contains_key(f.value->entity.0) ==> !rev0.contains_key(g.value->id.0)))
    &&& (f.policy is Ignore ==> {
        &&& (f.value is Local ==> if fwd1.contains_key(f.value->entity.0) {
            g.value == (EntityRef::Wire { id: NetworkId(fwd1[f.value->entity.0]) })
        } else {
            g.value is Empty
        })
        &&& (f.value is Empty ==> g.value is Empty)
    })
}

/// How one field is rewritten by successful inbound resolution.  `rev0`
/// and `rev1` are the reverse direction before and after the call,
/// `next0` the simulation's handle counter before it, and `tags1` the
/// identifier tags after it.
pub open spec fn in_resolved(
    f: EntityField,
    g: EntityField,
    rev0: Map<u32, u64>,
    rev1: Map<u32, u64>,
    next0: u64,
    tags1: Map<u64, u32>,
) -> bool {
    &&& g.policy == f.policy
    &&& (f.policy is Drop ==> f.value is Wire && rev0.contains_key(f.value->id.0) && g.value == (
    EntityRef::Local { entity: Entity(rev0[f.value->id.0]) }))
    &&& (f.policy is Create ==> f.value is Wire && g.value is Local && rev1.contains_pair(
        f.value->id.0,
        g.value->entity.0,
    ) && (rev0.contains_key(f.value->id.0) ==> g.value->entity.0 == rev0[f.value->id.0]) && (
    !rev0.contains_key(f.value->id.0) ==> g.value->entity.0 >= next0 && tags1.contains_pair(
        g.value->entity.0,
        f.value->id.0,
    )))
    &&& (f.policy is Ignore ==> {
        &&& (f.value is Wire ==> if rev1.contains_key(f.value->id.0) {
            g.value == (EntityRef::Local { entity: Entity(rev1[f.value->id.0]) })
        } else {
            g.value is Empty
        })
        &&& (f.value is Empty ==> g.value is Empty)
    })
}

/// After outbound resolution, a field carries the wire identifier that
/// the (possibly grown) map registers for the local handle it held; an
/// optional field may instead have become empty.  `fwd0` and `rev0` are
/// the two map directions before the whole batch: a handle already
/// registered then keeps exactly its old identifier, and an identifier
/// generated during the batch is fresh with respect to the initial map.
pub open spec fn sent_field(
    f: EntityField,
    g: EntityField,
    fwd0: Map<u64, u32>,
    rev0: Map<u32, u64>,
    fwd1: Map<u64, u32>,
) -> bool {
    &&& g.policy == f.policy
    &&& ((f.policy is Drop || f.policy is Create) ==> f.value is Local && g.value is Wire
        && fwd1.contains_pair(f.value->entity.0, g.value->id.0))
    &&& ((f.policy is Drop || f.policy is Create) ==> (fwd0.contains_key(f.value->entity.0)
        ==> g.value == (EntityRef::Wire { id: NetworkId(fwd0[f.value->entity.0]) })))
    &&& (f.policy is Create ==> (!fwd0.contains_key(f.value->entity.0) ==> !rev0.contains_key(
        g.value->id.0,
    )))
    &&& (f.policy is Ignore ==> {
        &&& (f.value is Local ==> (g.value is Empty || (g.value is Wire && fwd1.contains_pair(
            f.value->entity.0,
            g.value->id.0,
        ))))
        &&& (f.value is Local ==> (fwd0.contains_key(f.value->entity.0) ==> g.value == (
        EntityRef::Wire { id: NetworkId(fwd0[f.value->entity.0]) })))
        &&& (f.value is Empty ==> g.value is Empty)
    })
}

/// After inbound resolution, a field carries a local handle that the
/// (possibly grown) map registers for the wire identifier it held; an
/// optional field may instead have become empty.  `rev0` is the reverse
/// direction before the whole batch: an identifier already registered
/// then resolves exactly to its old handle, and an object synthesized
/// during the batch is a fresh, tagged one.
pub open spec fn received_field(
    f: EntityField,
    g: EntityField,
    rev0: Map<u32, u64>,
    rev1: Map<u32, u64>,
    next0: u64,
    tags1: Map<u64, u32>,
) -> bool {
    &&& g.policy == f.policy
    &&& ((f.policy is Drop || f.policy is Create) ==> f.value is Wire && g.value is Local
        && rev1.contains_pair(f.value->id.0, g.value->entity.0))
    &&& ((f.policy is Drop || f.policy is Create) ==> (rev0.contains_key(f.value->id.0)
        ==> g.value == (EntityRef::Local { entity: Entity(rev0[f.value->id.0]) })))
    &&& (f.policy is Create ==> (!rev0.contains_key(f.value->id.0) ==> g.value->entity.0 >= next0
        && tags1.contains_pair(g.value->entity.0, f.value->id.0)))
    &&& (f.policy is Ignore ==> {
        &&& (f.value is Wire ==> (g.value is Empty || (g.value is Local && rev1.contains_pair(
            f.value->id.0,
            g.value->entity.0,
        ))))
        &&& (f.value is Wire ==> (rev0.contains_key(f.value->id.0) ==> g.value == (
        EntityRef::Local { entity: Entity(rev0[f.value->id.0]) })))
        &&& (f.value is Empty ==> g.value is Empty)
    })
}

/// Every handle registered in the map was allocated by the simulation, so
/// a freshly spawned handle never collides with a registered one.
pub open spec fn handles_fresh(map: NetworkIdMap, sim: Simulation) -> bool {
    forall|e: u64| #[trigger] map.fwd().contains_key(e) ==> e < sim.next()
}

/// Every tagged handle was allocated by the simulation.
pub open spec fn sim_fresh(sim: Simulation) -> bool {
    forall|e: u64| #[trigger] sim.tags().contains_key(e) ==> e < sim.next()
}

/// Rewrites local handle fields to wire identifiers for serialization
/// before send.  Returns `false` — the send is aborted and the map
/// untouched — exactly when a Drop-policy field's handle has no registered
/// identifier.  Create-policy fields register a fresh identifier for an
/// unregistered handle; Ignore-policy fields become empty when
/// unresolvable.
pub fn entity_to_network(fields: &mut Vec<EntityField>, map: &mut NetworkIdMap) -> (ok: bool)
    requires
        old(map).wf(),
        outbound_form(old(fields)@),
        old(map).rev().dom().len() + old(fields)@.len() < u32::MAX as nat,
    ensures
        final(map).wf(),
        ok == drops_resolve_out(old(fields)@, old(map).fwd()),
        final(fields)@.len() == old(fields)@.len(),
        !ok ==> final(map).fwd() == old(map).fwd() && final(map).rev() == old(map).rev(),
        forall|e: u64| #[trigger]
            old(map).fwd().contains_key(e) ==> final(map).fwd().contains_pair(
                e,
                old(map).fwd()[e],
            ),
        forall|i: u32| #[trigger]
            old(map).rev().contains_key(i) ==> final(map).rev().contains_pair(
                i,
                old(map).rev()[i],
            ),
        forall|e: u64| #[trigger]
            final(map).fwd().contains_key(e) ==> old(map).fwd().contains_key(e) || exists|j: int|
                0 <= j < old(fields)@.len() && (#[trigger] old(fields)@[j]).policy is Create && old(
                    fields,
                )@[j].value == (EntityRef::Local { entity: Entity(e) }),
        final(map).rev().dom().len() <= old(map).rev().dom().len() + old(fields)@.len(),
        forall|x: u64| #[trigger]
            final(map).fwd().contains_key(x) && !old(map).fwd().contains_key(x) ==> !old(
                map,
            ).rev().contains_key(final(map).fwd()[x]),
        ok ==> final(map).fwd().dom() == old(map).fwd().dom().union(
            create_handles(old(fields)@),
        ),
        ok ==> wire_form(final(fields)@),
        ok ==> forall|j: int|
            #![trigger old(fields)@[j]]
            0 <= j < old(fields)@.len() ==> out_resolved(
                old(fields)@[j],
                final(fields)@[j],
                old(map).fwd(),
                old(map).rev(),
                final(map).fwd(),
            ),
{
    let ghost fields0 = old(fields)@;
    let n = fields.len();
    // Drop-policy fields first: a failure here aborts the message before
    // any identifier is generated for a Create field.
    let mut j: usize = 0;
    while j < n
        invariant
            map.wf(),
            map.fwd() == old(map).fwd(),
            map.rev() == old(map).rev(),
            fields@.len() == n,
            fields0 == old(fields)@,
            fields0.len() == n,
            outbound_form(fields0),
            j <= n,
            forall|i: int| j <= i < n ==> fields@[i] == fields0[i],
            forall|i: int|
                #![trigger fields@[i]]
                0 <= i < j ==> if fields0[i].policy is Drop {
                    out_resolved(fields0[i], fields@[i], map.fwd(), map.rev(), map.fwd())
                } else {
                    fields@[i] == fields0[i]
                },
        decreases n - j,
    {
        let f = fields[j];
        proof {
            assert(fields0[j as int] == f);
        }
        match f.policy {
            MissingPolicy::Drop => {
                match f.value {
                    EntityRef::Local { entity } => {
                        match map.from_entity(entity) {
                            Some(id) => {
                                fields.set(
                                    j,
                                    EntityField { policy: f.policy, value: EntityRef::Wire { id } },
                                );
                            },
                            None => {
                                proof {
                                    assert(!drops_resolve_out(fields0, old(map).fwd()));
                                }
                                return false;
                            },
                        }
                    },
                    _ => {
                        proof {
                            assert(false);
                        }
                    },
                }
            },
            _ => {},
        }
        j = j + 1;
    }
    proof {
        assert forall|i: int|
            #![trigger fields0[i]]
            0 <= i < fields0.len() && fields0[i].policy is Drop && fields0[i].value is Local implies
            old(map).fwd().contains_key(fields0[i].value->entity.0) by {
            assert(out_resolved(fields0[i], fields@[i], map.fwd(), map.rev(), map.fwd()));
        }
        assert(drops_resolve_out(fields0, old(map).fwd()));
    }
    // Create-policy fields second: unregistered handles get fresh
    // identifiers.
    let ghost drops = fields@;
    let mut j: usize = 0;
    while j < n
        invariant
            map.wf(),
            fields@.len() == n,
            fields0 == old(fields)@,
            fields0.len() == n,
            drops.len() == n,
            outbound_form(fields0),
            j <= n,
            old(map).rev().dom().len() + n < u32::MAX as nat,
            map.rev().dom().len() <= old(map).rev().dom().len() + j,
            forall|e: u64| #[trigger]
                old(map).fwd().contains_key(e) ==> map.fwd().contains_pair(e, old(map).fwd()[e]),
            forall|i: u32| #[trigger]
                old(map).rev().contains_key(i) ==> map.rev().contains_pair(i, old(map).rev()[i]),
            forall|e: u64| #[trigger]
                map.fwd().contains_key(e) ==> old(map).fwd().contains_key(e) || exists|i: int|
                    0 <= i < j && (#[trigger] fields0[i]).policy is Create && fields0[i].value == (
                    EntityRef::Local { entity: Entity(e) }),
            forall|i: int|
                #![trigger fields@[i]]
                0 <= i < n && !(fields0[i].policy is Create) ==> fields@[i] == drops[i],
            forall|i: int|
                #![trigger drops[i]]
                0 <= i < n ==> if fields0[i].policy is Drop {
                    out_resolved(fields0[i], drops[i], old(map).fwd(), old(map).rev(), map.fwd())
                } else {
                    drops[i] == fields0[i]
                },
            forall|i: int|
                #![trigger fields@[i]]
                0 <= i < j && fields0[i].policy is Create ==> out_resolved(
                    fields0[i],
                    fields@[i],
                    old(map).fwd(),
                    old(map).rev(),
                    map.fwd(),
                ),
            forall|i: int| j <= i < n && fields0[i].policy is Create ==> fields@[i] == fields0[i],
        decreases n - j,
    {
        let f = fields[j];
        match f.policy {
            MissingPolicy::Create => {
                proof {
                    assert(fields0[j as int] == f);
                }
                match f.value {
                    EntityRef::Local { entity } => {
                        let ghost fwd_b = map.fwd();
                        let ghost rev_b = map.rev();
                        let id = map.insert(entity);
                        proof {
                            if !old(map).fwd().contains_key(entity.0) {
                                if fwd_b.contains_key(entity.0) {
                                    // The handle was registered by an
                                    // earlier Create field of this same
                                    // message; the identifier chosen then
                                    // was fresh for the initial map.
                                    let k = choose|k: int|
                                        0 <= k < j && (#[trigger] fields0[k]).policy is Create
                                            && fields0[k].value == (EntityRef::Local {
                                            entity: Entity(entity.0),
                                        });
                                    assert(out_resolved(
                                        fields0[k],
                                        fields@[k],
                                        old(map).fwd(),
                                        old(map).rev(),
                                        fwd_b,
                                    ));
                                    assert(fwd_b.contains_pair(entity.0, fields@[k].value->id.0));
                                    assert(id.0 == fields@[k].value->id.0);
                                    assert(!old(map).rev().contains_key(id.0));
                                } else {
                                    // A brand new identifier: fresh for
                                    // the current reverse map, which
                                    // contains the initial one.
                                    assert(!rev_b.contains_key(id.0));
                                    if old(map).rev().contains_key(id.0) {
                                        assert(rev_b.contains_pair(id.0, old(map).rev()[id.0]));
                                    }
                                }
                            }
                        }
                        fields.set(
                            j,
                            EntityField { policy: f.policy, value: EntityRef::Wire { id } },
                        );
                    },
                    _ => {
                        proof {
                            assert(false);
                        }
                    },
                }
            },
            _ => {},
        }
        j = j + 1;
    }
    // Ignore-policy fields last, resolved against the grown map: an
    // optional reference to an object just registered by a Create field in
    // the same message still resolves.
    let ghost fwd2 = map.fwd();
    let ghost rev2 = map.rev();
    let ghost creates = fields@;
    let mut j: usize = 0;
    while j < n
        invariant
            map.wf(),
            map.fwd() == fwd2,
            map.rev() == rev2,
            forall|e: u64| #[trigger]
                map.fwd().contains_key(e) ==> old(map).fwd().contains_key(e) || exists|i: int|
                    0 <= i < n && (#[trigger] fields0[i]).policy is Create && fields0[i].value == (
                    EntityRef::Local { entity: Entity(e) }),
            forall|x: u64| #[trigger]
                map.fwd().contains_key(x) && !old(map).fwd().contains_key(x) ==> !old(
                    map,
                ).rev().contains_key(map.fwd()[x]),
            fields@.len() == n,
            fields0 == old(fields)@,
            fields0.len() == n,
            creates.len() == n,
            outbound_form(fields0),
            j <= n,
            forall|i: int| j <= i < n ==> fields@[i] == creates[i],
            forall|i: int|
                #![trigger fields@[i]]
                0 <= i < n && !(fields0[i].policy is Ignore) ==> fields@[i] == creates[i],
            forall|i: int|
                #![trigger creates[i]]
                0 <= i < n && !(fields0[i].policy is Ignore) ==> out_resolved(
                    fields0[i],
                    creates[i],
                    old(map).fwd(),
                    old(map).rev(),
                    fwd2,
                ),
            forall|i: int|
                #![trigger creates[i]]
                0 <= i < n && fields0[i].policy is Ignore ==> creates[i] == fields0[i],
            forall|i: int|
                #![trigger fields@[i]]
                0 <= i < j && fields0[i].policy is Ignore ==> out_resolved(
                    fields0[i],
                    fields@[i],
                    old(map).fwd(),
                    old(map).rev(),
                    fwd2,
                ),
        decreases n - j,
    {
        let f = fields[j];
        proof {
            assert(creates[j as int] == fields@[j as int]);
            assert(fields0[j as int] == fields0[j as int]);
        }
        match f.policy {
            MissingPolicy::Ignore => {
                proof {
                    assert(creates[j as int] == fields0[j as int]);
                    assert(f == fields0[j as int]);
                }
                match f.value {
                    EntityRef::Local { entity } => {
                        match map.from_entity(entity) {
                            Some(id) => {
                                fields.set(
                                    j,
                                    EntityField { policy: f.policy, value: EntityRef::Wire { id } },
                                );
                            },
                            None => {
                                fields.set(
                                    j,
                                    EntityField { policy: f.policy, value: EntityRef::Empty },
                                );
                            },
                        }
                    },
                    EntityRef::Empty => {},
                    _ => {
                        proof {
                            assert(false);
                        }
                    },
                }
            },
            _ => {},
        }
        j = j + 1;
    }
    proof {
        assert forall|i: int|
            #![trigger fields0[i]]
            0 <= i < n implies out_resolved(
            fields0[i],
            fields@[i],
            old(map).fwd(),
            old(map).rev(),
            map.fwd(),
        ) by {
            assert(fields@[i] == fields@[i]);
            assert(creates[i] == creates[i]);
            if fields0[i].policy is Ignore {
                assert(out_resolved(fields0[i], fields@[i], old(map).fwd(), old(map).rev(), fwd2));
            } else {
                assert(fields@[i] == creates[i]);
                assert(out_resolved(fields0[i], creates[i], old(map).fwd(), old(map).rev(), fwd2));
            }
        }
        assert forall|i: int|
            #![trigger fields@[i]]
            0 <= i < n implies (fields@[i].value is Wire || (fields@[i].policy is Ignore
                && fields@[i].value is Empty)) by {
            assert(fields0[i] == fields0[i]);
            assert(out_resolved(fields0[i], fields@[i], old(map).fwd(), old(map).rev(), map.fwd()));
        }
        assert forall|x: u64| #[trigger]
            create_handles(fields0).contains(x) implies map.fwd().dom().contains(x) by {
            let i = choose|i: int|
                0 <= i < fields0.len() && (#[trigger] fields0[i]).policy is Create
                    && fields0[i].value == (EntityRef::Local { entity: Entity(x) });
            assert(out_resolved(fields0[i], fields@[i], old(map).fwd(), old(map).rev(), map.fwd()));
        }
        assert forall|x: u64| #[trigger]
            map.fwd().dom().contains(x) && !old(map).fwd().dom().contains(x) implies create_handles(
            fields0,
        ).contains(x) by {
            assert(map.fwd().contains_key(x));
        }
        assert(map.fwd().dom() =~= old(map).fwd().dom().union(create_handles(fields0)));
    }
    true
}


/// Rewrites wire identifier fields to local handles after receive.
/// Returns `false` — the event is discarded, and neither the map nor the
/// simulation is touched — exactly when a Drop-policy field's identifier
/// is not registered.  Create-policy fields synthesize a new local object
/// for an unknown identifier and register it, tagged, under that
/// identifier; receiving the same identifier again resolves to the object
/// already created.  Ignore-policy fields become empty when unresolvable.
pub fn network_to_entity(
    fields: &mut Vec<EntityField>,
    map: &mut NetworkIdMap,
    sim: &mut Simulation,
) -> (ok: bool)
    requires
        old(map).wf(),
        wire_form(old(fields)@),
        handles_fresh(*old(map), *old(sim)),
        sim_fresh(*old(sim)),
        old(sim).next() + old(fields)@.len() <= u64::MAX,
    ensures
        final(map).wf(),
        handles_fresh(*final(map), *final(sim)),
        sim_fresh(*final(sim)),
        ok == drops_resolve_in(old(fields)@, old(map).rev()),
        final(fields)@.len() == old(fields)@.len(),
        !ok ==> final(map).fwd() == old(map).fwd() && final(map).rev() == old(map).rev()
            && final(sim).next() == old(sim).next() && final(sim).tags() == old(sim).tags(),
        forall|e: u64| #[trigger]
            old(map).fwd().contains_key(e) ==> final(map).fwd().contains_pair(
                e,
                old(map).fwd()[e],
            ),
        forall|i: u32| #[trigger]
            old(map).rev().contains_key(i) ==> final(map).rev().contains_pair(
                i,
                old(map).rev()[i],
            ),
        forall|e: u64| #[trigger]
            old(sim).tags().contains_key(e) ==> final(sim).tags().contains_pair(
                e,
                old(sim).tags()[e],
            ),
        final(sim).next() >= old(sim).next(),
        final(sim).next() <= old(sim).next() + old(fields)@.len(),
        forall|i: u32| #[trigger]
            final(map).rev().contains_key(i) ==> old(map).rev().contains_key(i) || exists|j: int|
                0 <= j < old(fields)@.len() && (#[trigger] old(fields)@[j]).policy is Create && old(
                    fields,
                )@[j].value == (EntityRef::Wire { id: NetworkId(i) }),
        forall|i: u32| #[trigger]
            final(map).rev().contains_key(i) && !old(map).rev().contains_key(i) ==> final(map).rev()[i] >= old(sim).next() && final(sim).tags().contains_pair(
                final(map).rev()[i],
                i,
            ),
        ok ==> final(map).rev().dom() == old(map).rev().dom().union(create_ids(old(fields)@)),
        ok ==> forall|j: int|
            #![trigger old(fields)@[j]]
            0 <= j < old(fields)@.len() ==> in_resolved(
                old(fields)@[j],
                final(fields)@[j],
                old(map).rev(),
                final(map).rev(),
                old(sim).next(),
                final(sim).tags(),
            ),
        creates_known(old(fields)@, old(map).rev()) ==> final(sim).next() == old(sim).next()
            && final(sim).tags() == old(sim).tags() && final(map).fwd() == old(map).fwd()
            && final(map).rev() == old(map).rev(),
{
    let ghost fields0 = old(fields)@;
    let n = fields.len();
    // Drop-policy fields first: a failure here aborts the message before
    // any object is created for a Create field.
    let mut j: usize = 0;
    while j < n
        invariant
            map.wf(),
            map.fwd() == old(map).fwd(),
            map.rev() == old(map).rev(),
            sim.next() == old(sim).next(),
            sim.tags() == old(sim).tags(),
            handles_fresh(*map, *sim),
            sim_fresh(*sim),
            fields@.len() == n,
            fields0 == old(fields)@,
            fields0.len() == n,
            wire_form(fields0),
            j <= n,
            forall|i: int| j <= i < n ==> fields@[i] == fields0[i],
            forall|i: int|
                #![trigger fields@[i]]
                0 <= i < j ==> if fields0[i].policy is Drop {
                    in_resolved(
                        fields0[i],
                        fields@[i],
                        map.rev(),
                        map.rev(),
                        sim.next(),
                        sim.tags(),
                    )
                } else {
                    fields@[i] == fields0[i]
                },
        decreases n - j,
    {
        let f = fields[j];
        proof {
            assert(fields0[j as int] == f);
        }
        match f.policy {
            MissingPolicy::Drop => {
                match f.value {
                    EntityRef::Wire { id } => {
                        match map.from_network(id) {
                            Some(entity) => {
                                fields.set(
                                    j,
                                    EntityField {
                                        policy: f.policy,
                                        value: EntityRef::Local { entity },
                                    },
                                );
                            },
                            None => {
                                proof {
                                    assert(!drops_resolve_in(fields0, old(map).rev()));
                                }
                                return false;
                            },
                        }
                    },
                    _ => {
                        proof {
                            assert(false);
                        }
                    },
                }
            },
            _ => {},
        }
        j = j + 1;
    }
    proof {
        assert forall|i: int|
            #![trigger fields0[i]]
            0 <= i < fields0.len() && fields0[i].policy is Drop && fields0[i].value is Wire implies
            old(map).rev().contains_key(fields0[i].value->id.0) by {
            assert(in_resolved(
                fields0[i],
                fields@[i],
                map.rev(),
                map.rev(),
                sim.next(),
                sim.tags(),
            ));
        }
        assert(drops_resolve_in(fields0, old(map).rev()));
    }
    // Create-policy fields second: unknown identifiers spawn a new local
    // object, tagged and registered under the incoming identifier.
    let ghost drops = fields@;
    let mut j: usize = 0;
    while j < n
        invariant
            map.wf(),
            handles_fresh(*map, *sim),
            sim_fresh(*sim),
            fields@.len() == n,
            fields0 == old(fields)@,
            fields0.len() == n,
            drops.len() == n,
            wire_form(fields0),
            j <= n,
            old(sim).next() + n <= u64::MAX,
            sim.next() <= old(sim).next() + j,
            sim.next() >= old(sim).next(),
            creates_known(fields0, old(map).rev()) ==> sim.next() == old(sim).next() && sim.tags()
                == old(sim).tags() && map.fwd() == old(map).fwd() && map.rev() == old(map).rev(),
            forall|i: u32| #[trigger]
                map.rev().contains_key(i) && !old(map).rev().contains_key(i) ==> map.rev()[i]
                    >= old(sim).next() && sim.tags().contains_pair(map.rev()[i], i),
            forall|e: u64| #[trigger]
                old(map).fwd().contains_key(e) ==> map.fwd().contains_pair(e, old(map).fwd()[e]),
            forall|i: u32| #[trigger]
                old(map).rev().contains_key(i) ==> map.rev().contains_pair(i, old(map).rev()[i]),
            forall|e: u64| #[trigger]
                old(sim).tags().contains_key(e) ==> sim.tags().contains_pair(
                    e,
                    old(sim).tags()[e],
                ),
            forall|i: u32| #[trigger]
                map.rev().contains_key(i) ==> old(map).rev().contains_key(i) || exists|k: int|
                    0 <= k < j && (#[trigger] fields0[k]).policy is Create && fields0[k].value == (
                    EntityRef::Wire { id: NetworkId(i) }),
            forall|i: int|
                #![trigger fields@[i]]
                0 <= i < n && !(fields0[i].policy is Create) ==> fields@[i] == drops[i],
            forall|i: int|
                #![trigger drops[i]]
                0 <= i < n ==> if fields0[i].policy is Drop {
                    in_resolved(
                        fields0[i],
                        drops[i],
                        old(map).rev(),
                        map.rev(),
                        old(sim).next(),
                        sim.tags(),
                    )
                } else {
                    drops[i] == fields0[i]
                },
            forall|i: int|
                #![trigger fields@[i]]
                0 <= i < j && fields0[i].policy is Create ==> in_resolved(
                    fields0[i],
                    fields@[i],
                    old(map).rev(),
                    map.rev(),
                    old(sim).next(),
                    sim.tags(),
                ),
            forall|i: int| j <= i < n && fields0[i].policy is Create ==> fields@[i] == fields0[i],
        decreases n - j,
    {
        let f = fields[j];
        match f.policy {
            MissingPolicy::Create => {
                proof {
                    assert(fields0[j as int] == f);
                }
                match f.value {
                    EntityRef::Wire { id } => {
                        let ghost rev_b = map.rev();
                        let ghost tags_b = sim.tags();
                        match map.from_network(id) {
                            Some(entity) => {
                                proof {
                                    if !old(map).rev().contains_key(id.0) {
                                        // The identifier was registered by
                                        // an earlier Create field of this
                                        // same message; that field spawned
                                        // and tagged the object.
                                        let k = choose|k: int|
                                            0 <= k < j && (#[trigger] fields0[k]).policy is Create
                                                && fields0[k].value == (EntityRef::Wire {
                                                id: NetworkId(id.0),
                                            });
                                        assert(in_resolved(
                                            fields0[k],
                                            fields@[k],
                                            old(map).rev(),
                                            rev_b,
                                            old(sim).next(),
                                            tags_b,
                                        ));
                                        assert(rev_b.contains_pair(
                                            id.0,
                                            fields@[k].value->entity.0,
                                        ));
                                        assert(entity.0 == fields@[k].value->entity.0);
                                    }
                                }
                                fields.set(
                                    j,
                                    EntityField {
                                        policy: f.policy,
                                        value: EntityRef::Local { entity },
                                    },
                                );
                            },
                            None => {
                                proof {
                                    if old(map).rev().contains_key(id.0) {
                                        assert(rev_b.contains_pair(id.0, old(map).rev()[id.0]));
                                    }
                                    assert(!creates_known(fields0, old(map).rev()));
                                }
                                let entity = sim.spawn();
                                sim.set_tag(entity, id);
                                proof {
                                    assert(!map.fwd().contains_key(entity.0));
                                }
                                map.insert_unchecked(entity, id);
                                fields.set(
                                    j,
                                    EntityField {
                                        policy: f.policy,
                                        value: EntityRef::Local { entity },
                                    },
                                );
                            },
                        }
                    },
                    _ => {
                        proof {
                            assert(false);
                        }
                    },
                }
            },
            _ => {},
        }
        j = j + 1;
    }
    // Ignore-policy fields last, resolved against the grown map.
    let ghost fwd2 = map.fwd();
    let ghost rev2 = map.rev();
    let ghost next2 = sim.next();
    let ghost tags2 = sim.tags();
    let ghost creates = fields@;
    let mut j: usize = 0;
    while j < n
        invariant
            map.wf(),
            map.fwd() == fwd2,
            map.rev() == rev2,
            sim.next() == next2,
            sim.tags() == tags2,
            next2 >= old(sim).next(),
            next2 <= old(sim).next() + n,
            creates_known(fields0, old(map).rev()) ==> sim.next() == old(sim).next() && sim.tags()
                == old(sim).tags() && map.fwd() == old(map).fwd() && map.rev() == old(map).rev(),
            forall|i: u32| #[trigger]
                map.rev().contains_key(i) ==> old(map).rev().contains_key(i) || exists|k: int|
                    0 <= k < n && (#[trigger] fields0[k]).policy is Create && fields0[k].value == (
                    EntityRef::Wire { id: NetworkId(i) }),
            forall|i: u32| #[trigger]
                map.rev().contains_key(i) && !old(map).rev().contains_key(i) ==> map.rev()[i]
                    >= old(sim).next() && sim.tags().contains_pair(map.rev()[i], i),
            handles_fresh(*map, *sim),
            sim_fresh(*sim),
            fields@.len() == n,
            fields0 == old(fields)@,
            fields0.len() == n,
            creates.len() == n,
            wire_form(fields0),
            j <= n,
            forall|i: int| j <= i < n ==> fields@[i] == creates[i],
            forall|i: int|
                #![trigger fields@[i]]
                0 <= i < n && !(fields0[i].policy is Ignore) ==> fields@[i] == creates[i],
            forall|i: int|
                #![trigger creates[i]]
                0 <= i < n && !(fields0[i].policy is Ignore) ==> in_resolved(
                    fields0[i],
                    creates[i],
                    old(map).rev(),
                    rev2,
                    old(sim).next(),
                    tags2,
                ),
            forall|i: int|
                #![trigger creates[i]]
                0 <= i < n && fields0[i].policy is Ignore ==> creates[i] == fields0[i],
            forall|i: int|
                #![trigger fields@[i]]
                0 <= i < j && fields0[i].policy is Ignore ==> in_resolved(
                    fields0[i],
                    fields@[i],
                    old(map).rev(),
                    rev2,
                    old(sim).next(),
                    tags2,
                ),
        decreases n - j,
    {
        let f = fields[j];
        proof {
            assert(creates[j as int] == fields@[j as int]);
        }
        match f.policy {
            MissingPolicy::Ignore => {
                proof {
                    assert(creates[j as int] == fields0[j as int]);
                    assert(f == fields0[j as int]);
                }
                match f.value {
                    EntityRef::Wire { id } => {
                        match map.from_network(id) {
                            Some(entity) => {
                                fields.set(
                                    j,
                                    EntityField {
                                        policy: f.policy,
                                        value: EntityRef::Local { entity },
                                    },
                                );
                            },
                            None => {
                                fields.set(
                                    j,
                                    EntityField { policy: f.policy, value: EntityRef::Empty },
                                );
                            },
                        }
                    },
                    EntityRef::Empty => {},
                    _ => {
                        proof {
                            assert(false);
                        }
                    },
                }
            },
            _ => {},
        }
        j = j + 1;
    }
    proof {
        assert forall|i: int|
            #![trigger fields0[i]]
            0 <= i < n implies in_resolved(
            fields0[i],
            fields@[i],
            old(map).rev(),
            map.rev(),
            old(sim).next(),
            sim.tags(),
        ) by {
            assert(fields@[i] == fields@[i]);
            assert(creates[i] == creates[i]);
            if fields0[i].policy is Ignore {
                assert(in_resolved(
                    fields0[i],
                    fields@[i],
                    old(map).rev(),
                    rev2,
                    old(sim).next(),
                    tags2,
                ));
            } else {
                assert(fields@[i] == creates[i]);
                assert(in_resolved(
                    fields0[i],
                    creates[i],
                    old(map).rev(),
                    rev2,
                    old(sim).next(),
                    tags2,
                ));
            }
        }
        assert forall|x: u32| #[trigger]
            create_ids(fields0).contains(x) implies map.rev().dom().contains(x) by {
            let i = choose|i: int|
                0 <= i < fields0.len() && (#[trigger] fields0[i]).policy is Create
                    && fields0[i].value == (EntityRef::Wire { id: NetworkId(x) });
            assert(in_resolved(
                fields0[i],
                fields@[i],
                old(map).rev(),
                map.rev(),
                old(sim).next(),
                sim.tags(),
            ));
        }
        assert forall|x: u32| #[trigger]
            map.rev().dom().contains(x) && !old(map).rev().dom().contains(x) implies create_ids(
            fields0,
        ).contains(x) by {
            assert(map.rev().contains_key(x));
        }
        assert(map.rev().dom() =~= old(map).rev().dom().union(create_ids(fields0)));
    }
    true
}


/// Drop-policy round trip: a field sent under the Drop policy carries
/// exactly the wire identifier the sender had registered for its handle,
/// and on the receiving side it resolves to exactly the handle the
/// receiver already had registered for that identifier — never to an
/// arbitrary or default handle.  (When the receiver has no such
/// registration, `network_to_entity` returns `false` and the message is
/// dropped instead.)
pub proof fn lemma_drop_round_trip(
    f: EntityField,
    g: EntityField,
    h: EntityField,
    sfwd0: Map<u64, u32>,
    srev0: Map<u32, u64>,
    sfwd1: Map<u64, u32>,
    rrev0: Map<u32, u64>,
    rrev1: Map<u32, u64>,
    rnext0: u64,
    rtags1: Map<u64, u32>,
)
    requires
        f.policy is Drop,
        out_resolved(f, g, sfwd0, srev0, sfwd1),
        in_resolved(g, h, rrev0, rrev1, rnext0, rtags1),
    ensures
        f.value is Local,
        g.value == (EntityRef::Wire { id: NetworkId(sfwd0[f.value->entity.0]) }),
        rrev0.contains_key(sfwd0[f.value->entity.0]),
        h.value == (EntityRef::Local { entity: Entity(rrev0[sfwd0[f.value->entity.0]]) }),
{
}

/// Create-policy idempotence: resolving the same Create-policy field a
/// second time, starting from the maps the first resolution left behind,
/// yields the very handle the first resolution produced — one local
/// object, not two.  (That the second resolution also spawns nothing is
/// the `creates_known` clause of `network_to_entity`.)
pub proof fn lemma_create_idempotent(
    f: EntityField,
    g1: EntityField,
    g2: EntityField,
    rev0: Map<u32, u64>,
    rev1: Map<u32, u64>,
    rev2: Map<u32, u64>,
    next0: u64,
    tags1: Map<u64, u32>,
    next1: u64,
    tags2: Map<u64, u32>,
)
    requires
        f.policy is Create,
        in_resolved(f, g1, rev0, rev1, next0, tags1),
        in_resolved(f, g2, rev1, rev2, next1, tags2),
    ensures
        g2.value == g1.value,
{
    assert(rev1.contains_pair(f.value->id.0, g1.value->entity.0));
    assert(g2.value->entity.0 == rev1[f.value->id.0]);
}

} // verus!
