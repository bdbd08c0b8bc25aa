use lu_packets::error::ReplicaError;
use lu_packets::registry::{classify_kind, ComponentKind, KindClass, ReplicaRegistry};

#[test]
fn construction_codecs_follow_type_order() {
    let mut reg = ReplicaRegistry::new();
    let ks = reg.resolve_construction_codecs(3, &vec![48, 2, 4, 31, 7, 68]).unwrap();
    assert_eq!(ks, vec![ComponentKind::Quickbuild, ComponentKind::Character, ComponentKind::Destroyable]);
}

#[test]
fn inert_kinds_give_no_codecs() {
    let mut reg = ReplicaRegistry::new();
    assert_eq!(reg.resolve_construction_codecs(1, &vec![2, 31, 55, 56, 68]), Ok(vec![]));
    assert!(reg.is_known(1));
}

#[test]
fn unknown_network_id_is_not_fatal() {
    let reg = ReplicaRegistry::new();
    let (ks, resolved) = reg.resolve_serialization_codecs(42);
    assert!(ks.is_empty());
    assert!(!resolved);
}

#[test]
fn unknown_kind_fails_construction() {
    let mut reg = ReplicaRegistry::new();
    assert_eq!(
        reg.resolve_construction_codecs(5, &vec![4, 999, 7, 1000]),
        Err(ReplicaError::UnknownComponentKind(999))
    );
    assert!(!reg.is_known(5));
    assert_eq!(classify_kind(0), KindClass::Unknown);
    assert_eq!(classify_kind(2), KindClass::Inert);
    assert_eq!(classify_kind(110), KindClass::Payload(ComponentKind::PossessionControl));
}

#[test]
fn construct_then_update_network_id_seven() {
    let mut reg = ReplicaRegistry::new();
    let ks = reg.resolve_construction_codecs(7, &vec![4, 7, 48]).unwrap();
    assert_eq!(ks, vec![ComponentKind::Character, ComponentKind::Destroyable, ComponentKind::Quickbuild]);
    let (sers, resolved) = reg.resolve_serialization_codecs(7);
    assert!(resolved);
    assert_eq!(sers, vec![ComponentKind::Character, ComponentKind::Destroyable, ComponentKind::Quickbuild]);
}

#[test]
fn construction_only_kinds_leave_updates() {
    let mut reg = ReplicaRegistry::new();
    reg.resolve_construction_codecs(9, &vec![5, 1, 9, 44, 98, 17]).unwrap();
    let (sers, resolved) = reg.resolve_serialization_codecs(9);
    assert!(resolved);
    assert_eq!(sers, vec![ComponentKind::ControllablePhysics, ComponentKind::Inventory]);
}

#[test]
fn reconstruction_replaces_entry_and_removal_forgets() {
    let mut reg = ReplicaRegistry::new();
    reg.resolve_construction_codecs(7, &vec![4]).unwrap();
    reg.resolve_construction_codecs(7, &vec![48]).unwrap();
    assert_eq!(reg.resolve_serialization_codecs(7), (vec![ComponentKind::Quickbuild], true));
    reg.remove(7);
    assert_eq!(reg.resolve_serialization_codecs(7), (vec![], false));
}

#[test]
fn kind_numbers() {
    assert_eq!(ComponentKind::Quickbuild.number(), 48);
    assert_eq!(ComponentKind::Bbb.number(), 107);
    assert!(!ComponentKind::Buff.has_serialization());
    assert!(ComponentKind::Character.has_serialization());
}
