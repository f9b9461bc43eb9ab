//! Tests for the management API error payloads.

use chunk_reorg::api_errors::{
    AlreadyExists, FieldViolation, NotFound, PreconditionViolation, ResourceType, Violation,
};

#[test]
fn field_violation_scopes_nest() {
    let v = FieldViolation::required("write_timeout");
    assert_eq!(v.field, "write_timeout".to_string());
    assert_eq!(v.description, "Field is required".to_string());
    let scoped = v.scope("rules");
    assert_eq!(scoped.field, "rules.write_timeout".to_string());
    let empty = FieldViolation { field: String::new(), description: "bad".to_string() };
    assert_eq!(empty.scope("rules").field, "rules".to_string());
}

#[test]
fn resource_type_name_round_trip() {
    let names = vec![
        "database",
        "database_uuid",
        "table",
        "partition",
        "chunk",
        "job",
        "router",
        "server_id",
        "something_else",
    ];
    for name in names {
        let t = ResourceType::from_name(name.to_string());
        assert_eq!(t.as_str(), name);
    }
    assert!(matches!(
        ResourceType::from_name("mystery".to_string()),
        ResourceType::Unknown(_)
    ));
}

#[test]
fn already_exists_and_not_found_descriptions() {
    let e = AlreadyExists::new(ResourceType::Database, "my database".to_string());
    assert_eq!(e.description, "Resource database/my database already exists".to_string());
    let n = NotFound::new(ResourceType::Chunk, "chunky".to_string());
    assert_eq!(n.description, "Resource chunk/chunky not found".to_string());
}

#[test]
fn precondition_violation_wire_round_trip() {
    let v = PreconditionViolation::PartitionInvalidState("mumbo".to_string());
    let wire = v.to_violation();
    assert_eq!(wire.category, "state".to_string());
    assert_eq!(wire.subject, "influxdata.com/iox/partition".to_string());
    assert_eq!(wire.description, "mumbo".to_string());
    match PreconditionViolation::from_violation(wire) {
        PreconditionViolation::PartitionInvalidState(d) => assert_eq!(d, "mumbo".to_string()),
        _ => panic!("round trip lost the variant"),
    }
}

#[test]
fn precondition_violation_unknown_kept_verbatim() {
    let wire = Violation {
        category: "my_magic".to_string(),
        subject: "elsewhere".to_string(),
        description: "INVALID".to_string(),
    };
    match PreconditionViolation::from_violation(wire) {
        PreconditionViolation::Unknown { category, subject, description } => {
            assert_eq!(category, "my_magic".to_string());
            assert_eq!(subject, "elsewhere".to_string());
            assert_eq!(description, "INVALID".to_string());
        },
        _ => panic!("expected the unknown variant"),
    }
}

#[test]
fn precondition_violation_descriptions() {
    assert_eq!(
        PreconditionViolation::ServerIdNotSet.description(),
        "server id must be set".to_string()
    );
    assert_eq!(
        PreconditionViolation::DatabaseImmutable.description(),
        "database must be mutable".to_string()
    );
    assert_eq!(
        PreconditionViolation::RouterConfigImmutable.description(),
        "router configuration is not mutable".to_string()
    );
}
