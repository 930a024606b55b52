//! Meshes of hosts and procs: how their processes come up, what state they are
//! in, and what the agents that run them decide.

pub mod allocator;
pub mod bootstrap;
pub mod host_agent;
pub mod host_mesh;
pub mod host_ref;
pub mod mailbox;
pub mod mesh_procs;
pub mod proc_agent;
pub mod proc_manager;
pub mod region;
pub mod region_text;
pub mod resource;
pub mod spawn;
pub mod status;
