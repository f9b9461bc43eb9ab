//! Typed error payloads surfaced through the management API: field
//! violations with scope context, resource descriptors for already-exists
//! and not-found answers, and precondition violations with their wire
//! category and subject.

use vstd::prelude::*;
use vstd::string::StringExecFns;
use crate::text::str_eq;

verus! {

/// A request field carried an invalid value. `field` accumulates parent
/// scopes, so a nested problem reads `rules.write_timeout` rather than
/// just `write_timeout`.
pub struct FieldViolation {
    pub field: String,
    pub description: String,
}

impl FieldViolation {
    /// The violation reported for a missing required field.
    pub fn required(field: &str) -> (r: FieldViolation)
        ensures
            r.field@ == field@,
            r.description@ == "Field is required"@,
    {
        FieldViolation { field: field.to_owned(), description: "Field is required".to_owned() }
    }

    /// Re-scopes this violation as the child of another field.
    pub fn scope(self, field: &str) -> (r: FieldViolation)
        ensures
            self.field@.len() == 0 ==> r.field@ == field@,
            self.field@.len() > 0 ==> r.field@ == field@ + "."@ + self.field@,
            r.description == self.description,
    {
        if self.field.as_str().is_empty() {
            FieldViolation { field: field.to_owned(), description: self.description }
        } else {
            let mut joined = field.to_owned();
            joined.append(".");
            joined.append(self.field.as_str());
            FieldViolation { field: joined, description: self.description }
        }
    }
}

/// A resource kind named in an already-exists or not-found answer.
pub enum ResourceType {
    Database,
    DatabaseUuid,
    Table,
    Partition,
    Chunk,
    Job,
    Router,
    ServerId,
    Unknown(String),
}

/// The wire name of a resource type.
pub open spec fn resource_type_name(t: ResourceType) -> Seq<char> {
    match t {
        ResourceType::Database => "database"@,
        ResourceType::DatabaseUuid => "database_uuid"@,
        ResourceType::Table => "table"@,
        ResourceType::Partition => "partition"@,
        ResourceType::Chunk => "chunk"@,
        ResourceType::Job => "job"@,
        ResourceType::Router => "router"@,
        ResourceType::ServerId => "server_id"@,
        ResourceType::Unknown(u) => u@,
    }
}

impl ResourceType {
    /// The wire name of this resource type.
    pub fn as_str(&self) -> (r: &str)
        ensures
            r@ == resource_type_name(*self),
    {
        match self {
            ResourceType::Database => "database",
            ResourceType::DatabaseUuid => "database_uuid",
            ResourceType::Table => "table",
            ResourceType::Partition => "partition",
            ResourceType::Chunk => "chunk",
            ResourceType::Job => "job",
            ResourceType::Router => "router",
            ResourceType::ServerId => "server_id",
            ResourceType::Unknown(u) => u.as_str(),
        }
    }

    /// Reads a wire name back into a resource type; an unrecognized name
    /// is kept verbatim as unknown. The wire name always survives the
    /// round trip.
    pub fn from_name(s: String) -> (r: ResourceType)
        ensures
            resource_type_name(r) == s@,
            s@ == "database"@ ==> r is Database,
            s@ == "database_uuid"@ ==> r is DatabaseUuid,
            s@ == "table"@ ==> r is Table,
            s@ == "partition"@ ==> r is Partition,
            s@ == "chunk"@ ==> r is Chunk,
            s@ == "job"@ ==> r is Job,
            s@ == "router"@ ==> r is Router,
            s@ == "server_id"@ ==> r is ServerId,
    {
        proof {
            reveal_strlit("database");
            reveal_strlit("database_uuid");
            reveal_strlit("table");
            reveal_strlit("partition");
            reveal_strlit("chunk");
            reveal_strlit("job");
            reveal_strlit("router");
            reveal_strlit("server_id");
            assert("database"@.len() == 8 && "database_uuid"@.len() == 13 && "table"@.len() == 5
                && "partition"@.len() == 9 && "chunk"@.len() == 5 && "job"@.len() == 3
                && "router"@.len() == 6 && "server_id"@.len() == 9);
            assert("table"@[0] == 't' && "chunk"@[0] == 'c');
            assert("partition"@[0] == 'p' && "server_id"@[0] == 's');
        }
        if str_eq(s.as_str(), "database") {
            ResourceType::Database
        } else if str_eq(s.as_str(), "database_uuid") {
            ResourceType::DatabaseUuid
        } else if str_eq(s.as_str(), "table") {
            ResourceType::Table
        } else if str_eq(s.as_str(), "partition") {
            ResourceType::Partition
        } else if str_eq(s.as_str(), "chunk") {
            ResourceType::Chunk
        } else if str_eq(s.as_str(), "job") {
            ResourceType::Job
        } else if str_eq(s.as_str(), "router") {
            ResourceType::Router
        } else if str_eq(s.as_str(), "server_id") {
            ResourceType::ServerId
        } else {
            ResourceType::Unknown(s)
        }
    }
}

/// Sent when a requested entity cannot be created because it already
/// exists on the server.
pub struct AlreadyExists {
    pub resource_type: ResourceType,
    pub resource_name: String,
    pub owner: String,
    pub description: String,
}

impl AlreadyExists {
    pub fn new(resource_type: ResourceType, resource_name: String) -> (r: AlreadyExists)
        ensures
            r.resource_type == resource_type,
            r.resource_name == resource_name,
            r.owner@.len() == 0,
            r.description@ == "Resource "@ + resource_type_name(resource_type) + "/"@
                + resource_name@ + " already exists"@,
    {
        let mut description = String::new();
        description.append("Resource ");
        description.append(resource_type.as_str());
        description.append("/");
        description.append(resource_name.as_str());
        description.append(" already exists");
        proof {
            assert(description@ =~= "Resource "@ + resource_type_name(resource_type) + "/"@
                + resource_name@ + " already exists"@);
        }
        AlreadyExists { resource_type, resource_name, description, owner: String::new() }
    }
}

/// Sent when an operation names a resource that does not exist on the
/// server.
pub struct NotFound {
    pub resource_type: ResourceType,
    pub resource_name: String,
    pub owner: String,
    pub description: String,
}

impl NotFound {
    pub fn new(resource_type: ResourceType, resource_name: String) -> (r: NotFound)
        ensures
            r.resource_type == resource_type,
            r.resource_name == resource_name,
            r.owner@.len() == 0,
            r.description@ == "Resource "@ + resource_type_name(resource_type) + "/"@
                + resource_name@ + " not found"@,
    {
        let mut description = String::new();
        description.append("Resource ");
        description.append(resource_type.as_str());
        description.append("/");
        description.append(resource_name.as_str());
        description.append(" not found");
        proof {
            assert(description@ =~= "Resource "@ + resource_type_name(resource_type) + "/"@
                + resource_name@ + " not found"@);
        }
        NotFound { resource_type, resource_name, description, owner: String::new() }
    }
}

/// The wire form of one precondition violation: a category, the subject it
/// applies to, and a description.
pub struct Violation {
    pub category: String,
    pub subject: String,
    pub description: String,
}

/// The system is in a state that prevents the requested operation.
pub enum PreconditionViolation {
    ServerIdNotSet,
    DatabaseImmutable,
    ServerInvalidState(String),
    DatabaseInvalidState(String),
    PartitionInvalidState(String),
    ChunkInvalidState(String),
    RouterConfigImmutable,
    DatabaseConfigImmutable,
    Unknown { category: String, subject: String, description: String },
}

/// The description a precondition violation carries.
pub open spec fn precondition_description(v: PreconditionViolation) -> Seq<char> {
    match v {
        PreconditionViolation::ServerIdNotSet => "server id must be set"@,
        PreconditionViolation::DatabaseImmutable => "database must be mutable"@,
        PreconditionViolation::ServerInvalidState(d) => d@,
        PreconditionViolation::DatabaseInvalidState(d) => d@,
        PreconditionViolation::PartitionInvalidState(d) => d@,
        PreconditionViolation::ChunkInvalidState(d) => d@,
        PreconditionViolation::RouterConfigImmutable => "router configuration is not mutable"@,
        PreconditionViolation::DatabaseConfigImmutable => "database configuration is not mutable"@,
        PreconditionViolation::Unknown { description, .. } => description@,
    }
}

/// The wire category of a precondition violation.
pub open spec fn precondition_category(v: PreconditionViolation) -> Seq<char> {
    match v {
        PreconditionViolation::ServerIdNotSet => "server_id"@,
        PreconditionViolation::DatabaseImmutable => "mutable"@,
        PreconditionViolation::ServerInvalidState(_) => "state"@,
        PreconditionViolation::DatabaseInvalidState(_) => "state"@,
        PreconditionViolation::PartitionInvalidState(_) => "state"@,
        PreconditionViolation::ChunkInvalidState(_) => "state"@,
        PreconditionViolation::RouterConfigImmutable => "config"@,
        PreconditionViolation::DatabaseConfigImmutable => "config"@,
        PreconditionViolation::Unknown { category, .. } => category@,
    }
}

/// The wire subject of a precondition violation.
pub open spec fn precondition_subject(v: PreconditionViolation) -> Seq<char> {
    match v {
        PreconditionViolation::ServerIdNotSet => "influxdata.com/iox"@,
        PreconditionViolation::DatabaseImmutable => "influxdata.com/iox/database"@,
        PreconditionViolation::ServerInvalidState(_) => "influxdata.com/iox"@,
        PreconditionViolation::DatabaseInvalidState(_) => "influxdata.com/iox/database"@,
        PreconditionViolation::PartitionInvalidState(_) => "influxdata.com/iox/partition"@,
        PreconditionViolation::ChunkInvalidState(_) => "influxdata.com/iox/chunk"@,
        PreconditionViolation::RouterConfigImmutable => "influxdata.com/iox/router"@,
        PreconditionViolation::DatabaseConfigImmutable => "influxdata.com/iox/database"@,
        PreconditionViolation::Unknown { subject, .. } => subject@,
    }
}

impl PreconditionViolation {
    /// The description this violation carries.
    pub fn description(&self) -> (r: String)
        ensures
            r@ == precondition_description(*self),
    {
        match self {
            PreconditionViolation::ServerIdNotSet => "server id must be set".to_owned(),
            PreconditionViolation::DatabaseImmutable => "database must be mutable".to_owned(),
            PreconditionViolation::ServerInvalidState(d) => d.clone(),
            PreconditionViolation::DatabaseInvalidState(d) => d.clone(),
            PreconditionViolation::PartitionInvalidState(d) => d.clone(),
            PreconditionViolation::ChunkInvalidState(d) => d.clone(),
            PreconditionViolation::RouterConfigImmutable => {
                "router configuration is not mutable".to_owned()
            },
            PreconditionViolation::DatabaseConfigImmutable => {
                "database configuration is not mutable".to_owned()
            },
            PreconditionViolation::Unknown { description, .. } => description.clone(),
        }
    }

    /// Encodes this violation in its wire form.
    pub fn to_violation(self) -> (r: Violation)
        ensures
            r.category@ == precondition_category(self),
            r.subject@ == precondition_subject(self),
            r.description@ == precondition_description(self),
    {
        let description = self.description();
        match self {
            PreconditionViolation::ServerIdNotSet => Violation {
                category: "server_id".to_owned(),
                subject: "influxdata.com/iox".to_owned(),
                description,
            },
            PreconditionViolation::ServerInvalidState(_) => Violation {
                category: "state".to_owned(),
                subject: "influxdata.com/iox".to_owned(),
                description,
            },
            PreconditionViolation::DatabaseImmutable => Violation {
                category: "mutable".to_owned(),
                subject: "influxdata.com/iox/database".to_owned(),
                description,
            },
            PreconditionViolation::DatabaseInvalidState(_) => Violation {
                category: "state".to_owned(),
                subject: "influxdata.com/iox/database".to_owned(),
                description,
            },
            PreconditionViolation::PartitionInvalidState(_) => Violation {
                category: "state".to_owned(),
                subject: "influxdata.com/iox/partition".to_owned(),
                description,
            },
            PreconditionViolation::ChunkInvalidState(_) => Violation {
                category: "state".to_owned(),
                subject: "influxdata.com/iox/chunk".to_owned(),
                description,
            },
            PreconditionViolation::RouterConfigImmutable => Violation {
                category: "config".to_owned(),
                subject: "influxdata.com/iox/router".to_owned(),
                description,
            },
            PreconditionViolation::DatabaseConfigImmutable => Violation {
                category: "config".to_owned(),
                subject: "influxdata.com/iox/database".to_owned(),
                description,
            },
            PreconditionViolation::Unknown { category, subject, .. } => Violation {
                category,
                subject,
                description,
            },
        }
    }

    /// Decodes a wire violation; the known category–subject pairs map to
    /// their variants (dropping the description where the variant carries
    /// a canonical one), and anything else is kept verbatim as unknown.
    pub fn from_violation(v: Violation) -> (r: PreconditionViolation)
        ensures
            v.category@ == "server_id"@ && v.subject@ == "influxdata.com/iox"@ ==> r
                is ServerIdNotSet,
            v.category@ == "state"@ && v.subject@ == "influxdata.com/iox"@ ==> (r matches
                PreconditionViolation::ServerInvalidState(d) && d@ == v.description@),
            v.category@ == "mutable"@ && v.subject@ == "influxdata.com/iox/database"@ ==> r
                is DatabaseImmutable,
            v.category@ == "state"@ && v.subject@ == "influxdata.com/iox/database"@ ==> (r matches
                PreconditionViolation::DatabaseInvalidState(d) && d@ == v.description@),
            v.category@ == "state"@ && v.subject@ == "influxdata.com/iox/partition"@ ==> (r matches
                PreconditionViolation::PartitionInvalidState(d) && d@ == v.description@),
            v.category@ == "state"@ && v.subject@ == "influxdata.com/iox/chunk"@ ==> (r matches
                PreconditionViolation::ChunkInvalidState(d) && d@ == v.description@),
            v.category@ == "config"@ && v.subject@ == "influxdata.com/iox/router"@ ==> r
                is RouterConfigImmutable,
            v.category@ == "config"@ && v.subject@ == "influxdata.com/iox/database"@ ==> r
                is DatabaseConfigImmutable,
            r is Unknown ==> (r matches PreconditionViolation::Unknown {
                category,
                subject,
                description,
            } && category@ == v.category@ && subject@ == v.subject@ && description@
                == v.description@),
    {
        proof {
            reveal_strlit("server_id");
            reveal_strlit("state");
            reveal_strlit("mutable");
            reveal_strlit("config");
            reveal_strlit("influxdata.com/iox");
            reveal_strlit("influxdata.com/iox/database");
            reveal_strlit("influxdata.com/iox/partition");
            reveal_strlit("influxdata.com/iox/chunk");
            reveal_strlit("influxdata.com/iox/router");
            assert("server_id"@.len() == 9 && "state"@.len() == 5 && "mutable"@.len() == 7
                && "config"@.len() == 6);
            assert("influxdata.com/iox"@.len() == 18 && "influxdata.com/iox/database"@.len() == 27
                && "influxdata.com/iox/partition"@.len() == 28 && "influxdata.com/iox/chunk"@.len()
                == 24 && "influxdata.com/iox/router"@.len() == 25);
        }
        let is_iox = str_eq(v.subject.as_str(), "influxdata.com/iox");
        let is_db = str_eq(v.subject.as_str(), "influxdata.com/iox/database");
        if str_eq(v.category.as_str(), "server_id") && is_iox {
            PreconditionViolation::ServerIdNotSet
        } else if str_eq(v.category.as_str(), "state") && is_iox {
            PreconditionViolation::ServerInvalidState(v.description)
        } else if str_eq(v.category.as_str(), "mutable") && is_db {
            PreconditionViolation::DatabaseImmutable
        } else if str_eq(v.category.as_str(), "state") && is_db {
            PreconditionViolation::DatabaseInvalidState(v.description)
        } else if str_eq(v.category.as_str(), "state") && str_eq(
            v.subject.as_str(),
            "influxdata.com/iox/partition",
        ) {
            PreconditionViolation::PartitionInvalidState(v.description)
        } else if str_eq(v.category.as_str(), "state") && str_eq(
            v.subject.as_str(),
            "influxdata.com/iox/chunk",
        ) {
            PreconditionViolation::ChunkInvalidState(v.description)
        } else if str_eq(v.category.as_str(), "config") && str_eq(
            v.subject.as_str(),
            "influxdata.com/iox/router",
        ) {
            PreconditionViolation::RouterConfigImmutable
        } else if str_eq(v.category.as_str(), "config") && is_db {
            PreconditionViolation::DatabaseConfigImmutable
        } else {
            PreconditionViolation::Unknown {
                category: v.category,
                subject: v.subject,
                description: v.description,
            }
        }
    }
}

} // verus!
