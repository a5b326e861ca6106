pub mod cluster_admin_domain;
pub mod cluster_admin_service;
pub mod order_rules_service;
