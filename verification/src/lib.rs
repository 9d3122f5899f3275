//! Decommissioning of container-orchestration resources: clusters, their
//! services and task-definition revisions, in one region or in a list of them.
//!
//! The crate holds the decisions of the tool and none of its remote calls.
//! Each component is a small machine that a driver steps: the machine names
//! the next thing to do, the driver does it and reports how it went.

pub mod chunking;
pub mod executor;
pub mod fan_out;
pub mod identifiers;
pub mod pipeline;
pub mod region_list;
pub mod scope;
pub mod selector;
pub mod settings;
pub mod teardown;
