//! Agent views: the registry of dashboard threads scoped to a working
//! directory, the request logic of the `agentView/*` app-server methods, and
//! the navigation state of the terminal agents dashboard.

pub mod thread_id;
pub mod text;
pub mod table;
pub mod model;
pub mod store;
pub mod protocol;
pub mod processor;
pub mod dashboard;
