pub mod deletion_service;
pub mod sweep;
