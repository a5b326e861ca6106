pub mod batch;
pub mod grpc_network;
pub mod router;
pub mod snapshot;
pub mod state_machine;
pub mod types;
pub mod batch_route;
