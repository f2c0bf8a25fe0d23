use eventwork_sync::ids::{ConnectionId, SerializableEntity, DANGLING_BITS};
use eventwork_sync::messages::{MutationStatus, SyncServerMessage};
use eventwork_sync::mutation::{
    apply_status, authorization_gate, mutation_gate, plan_apply, respond_all, ApplyPlan, MutationAuthorizer, MutationStep,
    ServerOnlyMutationAuthorizer,
};
use eventwork_sync::registry::{ComponentRegistration, SyncRegistry};
use eventwork_sync::subscription::{MutationQueue, QueuedMutation};

fn queued(conn: u32, request_id: Option<u64>, entity: u64, ty: &str) -> QueuedMutation {
    QueuedMutation {
        connection_id: ConnectionId { id: conn },
        request_id,
        entity: SerializableEntity { bits: entity },
        component_type: ty.to_string(),
        value: vec![99],
    }
}

fn registry() -> SyncRegistry {
    let mut reg = SyncRegistry::new();
    reg.register_component(ComponentRegistration::new("app::Counter", None)).unwrap();
    reg
}

#[test]
fn server_only_policy() {
    let policy = ServerOnlyMutationAuthorizer;
    assert_eq!(policy.authorize(&queued(3, Some(2), 7, "Counter")), MutationStatus::Forbidden);
    assert_eq!(policy.authorize(&queued(0, None, 7, "Counter")), MutationStatus::Success);
    assert!(ConnectionId::server().is_server());
}

#[test]
fn gate_checks_type_then_policy() {
    let reg = registry();
    assert_eq!(
        mutation_gate(&reg, &queued(1, Some(1), 7, "Unknown")),
        MutationStep::Respond(MutationStatus::ValidationError)
    );
    assert_eq!(mutation_gate(&reg, &queued(1, Some(2), 7, "Counter")), MutationStep::Authorize);
    assert_eq!(authorization_gate(MutationStatus::Forbidden), MutationStep::Respond(MutationStatus::Forbidden));
    assert_eq!(authorization_gate(MutationStatus::Success), MutationStep::Apply);
}

#[test]
fn apply_decisions() {
    let dangling = SerializableEntity::dangling();
    assert_eq!(dangling.bits, DANGLING_BITS);
    assert_eq!(plan_apply(dangling, true, false), ApplyPlan::Spawn);
    assert_eq!(apply_status(ApplyPlan::Spawn), MutationStatus::Success);
    assert_eq!(plan_apply(SerializableEntity { bits: 7 }, true, true), ApplyPlan::Replace);
    assert_eq!(plan_apply(SerializableEntity { bits: 7 }, true, false), ApplyPlan::Missing);
    assert_eq!(apply_status(ApplyPlan::Missing), MutationStatus::NotFound);
    assert_eq!(plan_apply(dangling, false, false), ApplyPlan::Invalid);
    assert_eq!(apply_status(ApplyPlan::Invalid), MutationStatus::ValidationError);
    assert_eq!(apply_status(ApplyPlan::Replace), MutationStatus::Success);
}

#[test]
fn one_response_per_mutation() {
    let mut queue = MutationQueue { pending: vec![queued(1, Some(1), 7, "Counter"), queued(2, Some(2), 7, "Counter")] };
    let out = respond_all(&mut queue, &vec![MutationStatus::Success, MutationStatus::Forbidden]);
    assert!(queue.pending.is_empty());
    assert_eq!(out.len(), 2);
    assert_eq!(out[0].connection_id, ConnectionId { id: 1 });
    match &out[1].message {
        SyncServerMessage::MutationResponse(r) => {
            assert_eq!(r.request_id, Some(2));
            assert_eq!(r.status, MutationStatus::Forbidden);
            assert!(r.message.is_none());
        }
        _ => panic!("expected a mutation response"),
    }
}
