//! A request/reply workflow engine: producers post typed requests, handlers
//! compute typed replies, and the engine tracks each request from submission
//! to removal.
//!
//! Every tick runs the same steps in the same order: ingress
//! ([`spawn_request_endpoint`]), dispatch ([`run_query_server`] and its
//! siblings, or [`run_query_client`] for handlers that work outside the
//! owning thread), and garbage collection ([`cleanup_requests`]). All of them
//! work on a [`GoalStore`], which is handed to them and owned by the caller.
pub mod laws;
pub mod lifecycle;
pub mod relations;
pub mod store;
pub mod structs;
pub mod systems;
pub mod traits;

pub use lifecycle::GoalState;
pub use relations::{find_parent, first_related, ChildRecord, ParentRecord};
pub use store::{Entity, GoalRecord, GoalStore};
pub use structs::{GoalComponent, QueryEvent, QueryFeedback, QueryReply, QueryRequest};
pub use systems::{
    cleanup_requests, run_query_client, run_query_reply, run_query_server, run_query_server_with,
    run_query_server_with_parent, run_query_server_with_supplement, spawn_request_endpoint,
    ClientTask,
};
pub use traits::{QueryError, QueryParentOps, QueryReplyOps, QueryServerOps, QuerySupplementOps};
