pub mod protocol;
pub mod security;
pub mod edge_gateway;
pub mod edge_schema;
pub mod edge_session_schema;
pub mod order_rules;
pub mod order_scheduler;
pub mod schedule_laws;
pub mod schedule_runs;
