pub mod db;
pub mod security;
